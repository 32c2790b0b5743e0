//! The text normalizer: three ordered pure passes over the emitted text.
//!
//! 1. Empty-block collapse: a `{` and a `}` separated only by whitespace are
//!    rewritten to the adjacent pair `{}`.
//! 2. Blank-line removal: every line that is empty after trimming is dropped;
//!    the remaining lines are rejoined with single newlines.
//! 3. Id promotion: every `#identifier` shorthand whose identifier string
//!    occurs more than once in the text (as a shorthand, or as a bare
//!    substring preceded by a character other than `#` and followed by a
//!    character other than `-`) is rewritten to the explicit `id="identifier"`
//!    form; a unique shorthand is left untouched.

use vstd::prelude::*;
use crate::text::{is_ws, is_ws_x};

verus! {

// ---------------------------------------------------------------------------
// Pass 1: empty-block collapse.
// ---------------------------------------------------------------------------
/// First index at or after `i` holding a non-whitespace character (or `i`
/// itself when out of range).
pub open spec fn ws_run_end(s: Seq<char>, i: int) -> int
    decreases s.len() - i,
{
    if 0 <= i < s.len() && is_ws(s[i]) {
        ws_run_end(s, i + 1)
    } else {
        i
    }
}

/// The text with every whitespace-separated `{`/`}` pair made adjacent.
pub open spec fn collapse(s: Seq<char>) -> Seq<char>
    decreases s.len(),
{
    if s.len() == 0 {
        Seq::<char>::empty()
    } else if s[0] == '{' && ({
        let j = ws_run_end(s, 1);
        1 <= j < s.len() && s[j] == '}'
    }) {
        let j = ws_run_end(s, 1);
        seq!['{', '}'] + collapse(s.skip(j + 1))
    } else {
        seq![s[0]] + collapse(s.skip(1))
    }
}

/// Runtime empty-block collapse over characters.
#[verifier::loop_isolation(false)]
pub fn collapse_chars(v: &Vec<char>) -> (r: Vec<char>)
    ensures
        r@ == collapse(v@),
{
    let mut out: Vec<char> = Vec::new();
    let mut i: usize = 0;
    proof {
        assert(v@.skip(0) =~= v@);
    }
    while i < v.len()
        invariant
            i <= v.len(),
            out@ + collapse(v@.skip(i as int)) == collapse(v@),
        decreases v.len() - i,
    {
        let ghost s = v@.skip(i as int);
        let c = v[i];
        if c == '{' {
            let mut j: usize = i + 1;
            while j < v.len() && is_ws_x(v[j])
                invariant
                    i + 1 <= j <= v.len(),
                    ws_run_end(s, 1) == ws_run_end(s, j - i),
                decreases v.len() - j,
            {
                j = j + 1;
                proof {
                    assert(s[j - 1 - i] == v@[j - 1]);
                }
            }
            proof {
                if j < v.len() {
                    assert(s[j - i] == v@[j as int]);
                }
                assert(ws_run_end(s, j - i) == j - i);
            }
            if j < v.len() && v[j] == '}' {
                out.push('{');
                out.push('}');
                proof {
                    assert(s.skip(j - i + 1) =~= v@.skip(j + 1));
                    assert(collapse(s) == seq!['{', '}'] + collapse(s.skip(j - i + 1)));
                }
                i = j + 1;
                proof {
                    assert(out@ + collapse(v@.skip(i as int)) =~= collapse(v@));
                }
            } else {
                out.push('{');
                proof {
                    assert(s.skip(1) =~= v@.skip(i + 1));
                    assert(collapse(s) == seq![s[0]] + collapse(s.skip(1)));
                }
                i = i + 1;
                proof {
                    assert(out@ + collapse(v@.skip(i as int)) =~= collapse(v@));
                }
            }
        } else {
            out.push(c);
            proof {
                assert(s.skip(1) =~= v@.skip(i + 1));
                assert(collapse(s) == seq![s[0]] + collapse(s.skip(1)));
            }
            i = i + 1;
            proof {
                assert(out@ + collapse(v@.skip(i as int)) =~= collapse(v@));
            }
        }
    }
    proof {
        assert(v@.skip(v@.len() as int) =~= Seq::<char>::empty());
        assert(out@ =~= collapse(v@));
    }
    out
}

// ---------------------------------------------------------------------------
// Pass 2: blank-line removal.
// ---------------------------------------------------------------------------
/// Length of the prefix of `s` before its first newline.
pub open spec fn line_len(s: Seq<char>) -> nat
    decreases s.len(),
{
    if s.len() > 0 && s[0] != '\n' {
        1 + line_len(s.drop_first())
    } else {
        0
    }
}

/// A line with one trailing carriage return removed, as line splitting
/// understands a line.
pub open spec fn chop_cr(l: Seq<char>) -> Seq<char> {
    if l.len() > 0 && l[l.len() - 1] == '\r' {
        l.drop_last()
    } else {
        l
    }
}

/// The lines of `s`: split at `\n`, one trailing `\r` removed from each
/// line, and no final empty line for text ending in a newline.
pub open spec fn lines_of(s: Seq<char>) -> Seq<Seq<char>>
    decreases s.len(),
{
    if s.len() == 0 {
        Seq::<Seq<char>>::empty()
    } else if line_len(s) + 1 <= s.len() {
        seq![chop_cr(s.take(line_len(s) as int))] + lines_of(s.skip(line_len(s) as int + 1))
    } else {
        seq![chop_cr(s)]
    }
}

/// Does the line hold only whitespace (so that it is empty after trimming)?
pub open spec fn all_ws(l: Seq<char>) -> bool {
    forall|k: int| 0 <= k < l.len() ==> is_ws(l[k])
}

/// The lines that survive blank-line removal.
pub open spec fn kept_lines(ls: Seq<Seq<char>>) -> Seq<Seq<char>>
    decreases ls.len(),
{
    if ls.len() == 0 {
        Seq::<Seq<char>>::empty()
    } else {
        (if all_ws(ls[0]) {
            Seq::<Seq<char>>::empty()
        } else {
            seq![ls[0]]
        }) + kept_lines(ls.drop_first())
    }
}

/// Lines rejoined with single newlines.
pub open spec fn join_nl(ls: Seq<Seq<char>>) -> Seq<char>
    decreases ls.len(),
{
    if ls.len() == 0 {
        Seq::<char>::empty()
    } else if ls.len() == 1 {
        ls[0]
    } else {
        ls[0] + seq!['\n'] + join_nl(ls.drop_first())
    }
}

/// The text with every blank line removed.
pub open spec fn strip_blank(s: Seq<char>) -> Seq<char> {
    join_nl(kept_lines(lines_of(s)))
}

/// Appending one line to a joined text inserts a newline separator exactly
/// when some line was already there.
pub proof fn lemma_join_nl_push(ls: Seq<Seq<char>>, l: Seq<char>)
    ensures
        join_nl(ls + seq![l]) == if ls.len() == 0 {
            l
        } else {
            join_nl(ls) + seq!['\n'] + l
        },
    decreases ls.len(),
{
    let ext = ls + seq![l];
    if ls.len() == 0 {
        assert(ext.len() == 1);
        assert(ext[0] == l);
    } else {
        lemma_join_nl_push(ls.drop_first(), l);
        assert(ext.drop_first() =~= ls.drop_first() + seq![l]);
        assert(ext.len() >= 2);
        assert(ext[0] == ls[0]);
        if ls.len() == 1 {
            assert(ls.drop_first().len() == 0);
            assert(join_nl(ext) == ext[0] + seq!['\n'] + join_nl(ext.drop_first()));
            assert(join_nl(ext.drop_first()) == l);
        } else {
            assert(join_nl(ls) == ls[0] + seq!['\n'] + join_nl(ls.drop_first()));
            assert(join_nl(ls) + seq!['\n'] + l =~= ls[0] + seq!['\n'] + (join_nl(ls.drop_first())
                + seq!['\n'] + l));
        }
    }
}

/// Runtime check that a line is empty after trimming.
pub fn all_ws_x(v: &Vec<char>) -> (r: bool)
    ensures
        r == all_ws(v@),
{
    let mut k: usize = 0;
    while k < v.len()
        invariant
            k <= v.len(),
            forall|t: int| 0 <= t < k ==> is_ws(v@[t]),
        decreases v.len() - k,
    {
        if !is_ws_x(v[k]) {
            return false;
        }
        k = k + 1;
    }
    true
}

/// Copies `v[lo..hi]`.
pub fn copy_range(v: &Vec<char>, lo: usize, hi: usize) -> (r: Vec<char>)
    requires
        lo <= hi <= v@.len(),
    ensures
        r@ == v@.subrange(lo as int, hi as int),
{
    let mut r: Vec<char> = Vec::new();
    let mut k: usize = lo;
    proof {
        assert(r@ =~= v@.subrange(lo as int, lo as int));
    }
    while k < hi
        invariant
            lo <= k <= hi <= v@.len(),
            r@ == v@.subrange(lo as int, k as int),
        decreases hi - k,
    {
        r.push(v[k]);
        k = k + 1;
        proof {
            assert(r@ =~= v@.subrange(lo as int, k as int));
        }
    }
    r
}

/// Runtime blank-line removal over characters.
#[verifier::loop_isolation(false)]
pub fn strip_chars(v: &Vec<char>) -> (r: Vec<char>)
    ensures
        r@ == strip_blank(v@),
{
    let mut out: Vec<char> = Vec::new();
    let ghost mut done: Seq<Seq<char>> = Seq::<Seq<char>>::empty();
    let mut i: usize = 0;
    proof {
        assert(v@.skip(0) =~= v@);
        assert(kept_lines(lines_of(v@)) =~= done + kept_lines(lines_of(v@.skip(0))));
    }
    while i < v.len()
        invariant
            i <= v.len(),
            kept_lines(lines_of(v@)) == done + kept_lines(lines_of(v@.skip(i as int))),
            out@ == join_nl(done),
            (done.len() == 0) == (out@.len() == 0),
            forall|t: int| 0 <= t < done.len() ==> !all_ws(done[t]),
        decreases v.len() - i,
    {
        let ghost s = v@.skip(i as int);
        let mut j: usize = i;
        while j < v.len() && v[j] != '\n'
            invariant
                i <= j <= v.len(),
                line_len(s) == (j - i) + line_len(v@.skip(j as int)),
            decreases v.len() - j,
        {
            j = j + 1;
            proof {
                assert(v@.skip(j - 1)[0] == v@[j - 1]);
                assert(v@.skip(j - 1).drop_first() =~= v@.skip(j as int));
            }
        }
        proof {
            if j < v.len() {
                assert(v@.skip(j as int)[0] == v@[j as int]);
            }
            assert(line_len(v@.skip(j as int)) == 0);
            assert(line_len(s) == j - i);
        }
        let mut line = copy_range(v, i, j);
        proof {
            assert(s.take(line_len(s) as int) =~= v@.subrange(i as int, j as int));
        }
        if line.len() > 0 && line[line.len() - 1] == '\r' {
            line.pop();
        }
        proof {
            assert(line@ =~= chop_cr(s.take(line_len(s) as int)));
        }
        let ghost rest = if j < v.len() {
            v@.skip(j + 1)
        } else {
            Seq::<char>::empty()
        };
        proof {
            if j < v.len() {
                assert(line_len(s) + 1 <= s.len());
                assert(s.skip(line_len(s) as int + 1) =~= v@.skip(j + 1));
                assert(lines_of(s) == seq![line@] + lines_of(rest));
            } else {
                assert(line_len(s) == s.len());
                assert(s.take(line_len(s) as int) =~= s);
                assert(lines_of(s) == seq![line@]);
                assert(lines_of(rest) =~= Seq::<Seq<char>>::empty());
                assert(lines_of(s) =~= seq![line@] + lines_of(rest));
            }
            assert(lines_of(s)[0] == line@);
            assert(lines_of(s).drop_first() =~= lines_of(rest));
        }
        let keep = !all_ws_x(&line);
        if keep {
            if out.len() > 0 {
                out.push('\n');
            }
            crate::text::push_seq(&mut out, &line);
            proof {
                lemma_join_nl_push(done, line@);
                assert(kept_lines(lines_of(s)) =~= seq![line@] + kept_lines(lines_of(rest)));
                done = done + seq![line@];
                assert(out@ == join_nl(done));
                assert(!all_ws(line@));
                assert(line@.len() > 0);
                assert(out@.len() > 0);
                assert(kept_lines(lines_of(v@)) =~= done + kept_lines(lines_of(rest)));
            }
        } else {
            proof {
                assert(kept_lines(lines_of(s)) =~= kept_lines(lines_of(rest)));
                assert(kept_lines(lines_of(v@)) =~= done + kept_lines(lines_of(rest)));
            }
        }
        if j < v.len() {
            i = j + 1;
        } else {
            i = v.len();
            proof {
                assert(v@.skip(i as int) =~= Seq::<char>::empty());
                assert(lines_of(v@.skip(i as int)) =~= Seq::<Seq<char>>::empty());
                assert(kept_lines(lines_of(v@.skip(i as int))) =~= Seq::<Seq<char>>::empty());
                assert(kept_lines(lines_of(v@)) =~= done + kept_lines(lines_of(v@.skip(i as int))));
            }
        }
    }
    proof {
        assert(v@.skip(v@.len() as int) =~= Seq::<char>::empty());
        assert(kept_lines(lines_of(v@)) =~= done);
        assert(out@ == strip_blank(v@));
    }
    out
}

// ---------------------------------------------------------------------------
// Pass 3: id promotion.
// ---------------------------------------------------------------------------
/// An identifier character: letters, digits, `_`, `-`.
pub open spec fn is_ident(c: char) -> bool {
    ('a' <= c && c <= 'z') || ('A' <= c && c <= 'Z') || ('0' <= c && c <= '9') || c == '_' || c
        == '-'
}

/// Runtime check for [`is_ident`].
pub fn is_ident_x(c: char) -> (r: bool)
    ensures
        r == is_ident(c),
{
    ('a' <= c && c <= 'z') || ('A' <= c && c <= 'Z') || ('0' <= c && c <= '9') || c == '_' || c
        == '-'
}

/// Length of the identifier-character run at the head of `s`.
pub open spec fn ident_len(s: Seq<char>) -> nat
    decreases s.len(),
{
    if s.len() > 0 && is_ident(s[0]) {
        1 + ident_len(s.drop_first())
    } else {
        0
    }
}

/// Does an id shorthand `#identifier` stand at the head of `s`?
pub open spec fn hash_match(s: Seq<char>) -> bool {
    s.len() >= 2 && s[0] == '#' && is_ident(s[1]) && 1 + ident_len(s.skip(1)) <= s.len()
}

/// How often `id` occurs in `s` as a shorthand `#id`, counting
/// non-overlapping matches left to right.
pub open spec fn hash_count(s: Seq<char>, id: Seq<char>) -> nat
    decreases s.len(),
{
    if hash_match(s) {
        let n = ident_len(s.skip(1));
        (if s.subrange(1, 1 + n as int) == id {
            1nat
        } else {
            0nat
        }) + hash_count(s.skip(1 + n as int), id)
    } else if s.len() > 0 {
        hash_count(s.drop_first(), id)
    } else {
        0
    }
}

/// Does `id` stand at the head of `s` in a bare context: preceded by one
/// character other than `#` and followed by one character other than `-`?
pub open spec fn bare_match(s: Seq<char>, id: Seq<char>) -> bool {
    id.len() >= 1 && s.len() >= id.len() + 2 && s[0] != '#' && s.subrange(1, 1 + id.len() as int)
        == id && s[1 + id.len() as int] != '-'
}

/// How often `id` occurs in `s` in a bare context, counting non-overlapping
/// matches (context characters included) left to right.
pub open spec fn bare_count(s: Seq<char>, id: Seq<char>) -> nat
    decreases s.len(),
{
    if bare_match(s, id) {
        1 + bare_count(s.skip(id.len() as int + 2), id)
    } else if s.len() > 0 {
        bare_count(s.drop_first(), id)
    } else {
        0
    }
}

/// The combined occurrence count that decides promotion.
pub open spec fn total_count(full: Seq<char>, id: Seq<char>) -> nat {
    hash_count(full, id) + bare_count(full, id)
}

/// The suffix `s` rewritten, with every `#id` whose combined count in `full`
/// exceeds one replaced by `id="id"`.
pub open spec fn promote_rec(full: Seq<char>, s: Seq<char>) -> Seq<char>
    decreases s.len(),
{
    if hash_match(s) {
        let n = ident_len(s.skip(1));
        let id = s.subrange(1, 1 + n as int);
        (if total_count(full, id) > 1 {
            seq!['i', 'd', '=', '"'] + id + seq!['"']
        } else {
            seq!['#'] + id
        }) + promote_rec(full, s.skip(1 + n as int))
    } else if s.len() > 0 {
        seq![s[0]] + promote_rec(full, s.drop_first())
    } else {
        Seq::<char>::empty()
    }
}

/// The whole text rewritten, counting occurrences over the whole text.
pub open spec fn promote(s: Seq<char>) -> Seq<char> {
    promote_rec(s, s)
}

/// Finds the end of the identifier run starting at `start`.
#[verifier::loop_isolation(false)]
fn ident_scan(v: &Vec<char>, start: usize) -> (j: usize)
    requires
        start <= v@.len(),
    ensures
        start <= j <= v@.len(),
        j - start == ident_len(v@.skip(start as int)),
{
    let mut j: usize = start;
    while j < v.len() && is_ident_x(v[j])
        invariant
            start <= j <= v.len(),
            ident_len(v@.skip(start as int)) == (j - start) + ident_len(v@.skip(j as int)),
        decreases v.len() - j,
    {
        j = j + 1;
        proof {
            assert(v@.skip(j - 1)[0] == v@[j - 1]);
            assert(v@.skip(j - 1).drop_first() =~= v@.skip(j as int));
        }
    }
    proof {
        if j < v.len() {
            assert(v@.skip(j as int)[0] == v@[j as int]);
        }
        assert(ident_len(v@.skip(j as int)) == 0);
    }
    j
}

/// Are `v[lo..hi]` and `w` the same characters?
fn range_eq(v: &Vec<char>, lo: usize, hi: usize, w: &Vec<char>) -> (r: bool)
    requires
        lo <= hi <= v@.len(),
    ensures
        r == (v@.subrange(lo as int, hi as int) == w@),
{
    if hi - lo != w.len() {
        proof {
            assert(v@.subrange(lo as int, hi as int).len() != w@.len());
        }
        return false;
    }
    let mut k: usize = 0;
    while k < w.len()
        invariant
            k <= w.len(),
            w@.len() == hi - lo,
            lo <= hi <= v@.len(),
            forall|t: int| 0 <= t < k ==> v@[lo + t] == w@[t],
        decreases w.len() - k,
    {
        if v[lo + k] != w[k] {
            proof {
                assert(v@.subrange(lo as int, hi as int)[k as int] != w@[k as int]);
            }
            return false;
        }
        k = k + 1;
    }
    proof {
        assert(v@.subrange(lo as int, hi as int) =~= w@);
    }
    true
}

/// Counts the shorthand occurrences of `id` over the whole text.
#[verifier::loop_isolation(false)]
fn count_hash(v: &Vec<char>, id: &Vec<char>) -> (c: usize)
    ensures
        c == hash_count(v@, id@),
{
    let mut c: usize = 0;
    let mut k: usize = 0;
    proof {
        assert(v@.skip(0) =~= v@);
    }
    while k < v.len()
        invariant
            k <= v.len(),
            c <= k,
            hash_count(v@, id@) == c + hash_count(v@.skip(k as int), id@),
        decreases v.len() - k,
    {
        let ghost s = v@.skip(k as int);
        if v[k] == '#' && k + 1 < v.len() && is_ident_x(v[k + 1]) {
            let j = ident_scan(v, k + 1);
            proof {
                assert(s.skip(1) =~= v@.skip(k + 1));
                assert(s[0] == v@[k as int] && s[1] == v@[k + 1]);
                assert(hash_match(s));
                assert(s.subrange(1, 1 + (j - k - 1)) =~= v@.subrange(k + 1, j as int));
                assert(s.skip(1 + (j - k - 1)) =~= v@.skip(j as int));
            }
            if range_eq(v, k + 1, j, id) {
                c = c + 1;
            }
            k = j;
        } else {
            proof {
                if s.len() >= 2 {
                    assert(s[0] == v@[k as int] && s[1] == v@[k + 1]);
                }
                assert(!hash_match(s));
                assert(s.drop_first() =~= v@.skip(k + 1));
            }
            k = k + 1;
        }
    }
    proof {
        assert(v@.skip(v@.len() as int) =~= Seq::<char>::empty());
    }
    c
}

/// Counts the bare-context occurrences of `id` over the whole text.
#[verifier::loop_isolation(false)]
fn count_bare(v: &Vec<char>, id: &Vec<char>) -> (c: usize)
    requires
        id@.len() >= 1,
    ensures
        c == bare_count(v@, id@),
{
    let mut c: usize = 0;
    let mut k: usize = 0;
    proof {
        assert(v@.skip(0) =~= v@);
    }
    while k < v.len()
        invariant
            k <= v.len(),
            c <= k,
            bare_count(v@, id@) == c + bare_count(v@.skip(k as int), id@),
        decreases v.len() - k,
    {
        let ghost s = v@.skip(k as int);
        let roomy = v.len() - k >= 2 && v.len() - k - 2 >= id.len();
        if roomy && v[k] != '#' && range_eq(v, k + 1, k + 1 + id.len(), id) && v[k + 1 + id.len()]
            != '-' {
            proof {
                assert(s[0] == v@[k as int]);
                assert(s.subrange(1, 1 + id@.len() as int) =~= v@.subrange(
                    k + 1,
                    k + 1 + id@.len(),
                ));
                assert(s[1 + id@.len() as int] == v@[k + 1 + id@.len()]);
                assert(bare_match(s, id@));
                assert(s.skip(id@.len() as int + 2) =~= v@.skip(k + id@.len() + 2));
            }
            c = c + 1;
            k = k + id.len() + 2;
        } else {
            proof {
                if id@.len() >= 1 && s.len() >= id@.len() + 2 {
                    assert(s[0] == v@[k as int]);
                    assert(s.subrange(1, 1 + id@.len() as int) =~= v@.subrange(
                        k + 1,
                        k + 1 + id@.len(),
                    ));
                    assert(s[1 + id@.len() as int] == v@[k + 1 + id@.len()]);
                }
                assert(!bare_match(s, id@));
                assert(s.drop_first() =~= v@.skip(k + 1));
            }
            k = k + 1;
        }
    }
    proof {
        assert(v@.skip(v@.len() as int) =~= Seq::<char>::empty());
    }
    c
}

/// Runtime id promotion over characters.
#[verifier::loop_isolation(false)]
#[verifier::rlimit(50)]
pub fn promote_chars(v: &Vec<char>) -> (r: Vec<char>)
    ensures
        r@ == promote(v@),
{
    let mut out: Vec<char> = Vec::new();
    let mut i: usize = 0;
    proof {
        assert(v@.skip(0) =~= v@);
    }
    while i < v.len()
        invariant
            i <= v.len(),
            out@ + promote_rec(v@, v@.skip(i as int)) == promote_rec(v@, v@),
        decreases v.len() - i,
    {
        let ghost s = v@.skip(i as int);
        if v[i] == '#' && i + 1 < v.len() && is_ident_x(v[i + 1]) {
            let j = ident_scan(v, i + 1);
            proof {
                assert(s.skip(1) =~= v@.skip(i + 1));
                assert(s[0] == v@[i as int] && s[1] == v@[i + 1]);
                assert(hash_match(s));
                assert(s.subrange(1, 1 + (j - i - 1)) =~= v@.subrange(i + 1, j as int));
                assert(s.skip(1 + (j - i - 1)) =~= v@.skip(j as int));
            }
            let id = copy_range(v, i + 1, j);
            let a = count_hash(v, &id);
            let b = count_bare(v, &id);
            let promote_it = a > 1 || b > 1 || (a >= 1 && b >= 1);
            proof {
                assert(promote_it == (total_count(v@, id@) > 1));
            }
            if promote_it {
                out.push('i');
                out.push('d');
                out.push('=');
                out.push('"');
                crate::text::push_seq(&mut out, &id);
                out.push('"');
            } else {
                out.push('#');
                crate::text::push_seq(&mut out, &id);
            }
            i = j;
            proof {
                assert(out@ + promote_rec(v@, v@.skip(i as int)) =~= promote_rec(v@, v@));
            }
        } else {
            proof {
                if s.len() >= 2 {
                    assert(s[0] == v@[i as int] && s[1] == v@[i + 1]);
                }
                assert(!hash_match(s));
                assert(s.drop_first() =~= v@.skip(i + 1));
            }
            out.push(v[i]);
            i = i + 1;
            proof {
                assert(out@ + promote_rec(v@, v@.skip(i as int)) =~= promote_rec(v@, v@));
            }
        }
    }
    proof {
        assert(v@.skip(v@.len() as int) =~= Seq::<char>::empty());
        assert(out@ =~= promote(v@));
    }
    out
}

// ---------------------------------------------------------------------------
// The composed normalizer, and the passes on strings.
// ---------------------------------------------------------------------------
/// The full normalization: empty-block collapse, then blank-line removal,
/// then id promotion, in that fixed order.
pub open spec fn normalize(s: Seq<char>) -> Seq<char> {
    promote(strip_blank(collapse(s)))
}

/// Runtime normalization over characters.
pub fn normalize_chars(v: &Vec<char>) -> (r: Vec<char>)
    ensures
        r@ == normalize(v@),
{
    let c = collapse_chars(v);
    let t = strip_chars(&c);
    promote_chars(&t)
}

/// Rewrites every whitespace-separated `{`/`}` pair to the adjacent `{}`.
pub fn format_empty_blocks(s: &str) -> (r: String)
    ensures
        r@ == collapse(s@),
{
    let v = crate::text::str_chars(s);
    let out = collapse_chars(&v);
    crate::text::chars_string(&out)
}

/// Drops every line that is empty after trimming and rejoins the remaining
/// lines with single newlines.
pub fn remove_empty_lines(s: &str) -> (r: String)
    ensures
        r@ == strip_blank(s@),
{
    let v = crate::text::str_chars(s);
    let out = strip_chars(&v);
    crate::text::chars_string(&out)
}

/// Rewrites every `#identifier` whose identifier occurs more than once in
/// the text to the explicit `id="identifier"` form.
pub fn convert_hash_id_to_id_attribute(s: &str) -> (r: String)
    ensures
        r@ == promote(s@),
{
    let v = crate::text::str_chars(s);
    let out = promote_chars(&v);
    crate::text::chars_string(&out)
}

} // verus!
