//! Character classes and small helpers on character sequences.
//!
//! All text handled by this crate is modelled as `Seq<char>` and carried at
//! runtime as `Vec<char>`; the boundary to `String` is crossed only here.

use vstd::prelude::*;

verus! {

/// Whitespace as the normalizer and the raw-text trimmer understand it: the
/// Unicode White_Space characters, the set that `char::is_whitespace` and
/// the usual regex `\s` class cover.
pub open spec fn is_ws(c: char) -> bool {
    c == ' ' || c == '\t' || c == '\n' || c == '\r' || c == '\u{b}' || c == '\u{c}' || c == '\u{85}'
        || c == '\u{a0}' || c == '\u{1680}' || ('\u{2000}' <= c && c <= '\u{200a}') || c
        == '\u{2028}' || c == '\u{2029}' || c == '\u{202f}' || c == '\u{205f}' || c == '\u{3000}'
}

/// Runtime check for [`is_ws`].
pub fn is_ws_x(c: char) -> (r: bool)
    ensures
        r == is_ws(c),
{
    c == ' ' || c == '\t' || c == '\n' || c == '\r' || c == '\u{b}' || c == '\u{c}' || c == '\u{85}'
        || c == '\u{a0}' || c == '\u{1680}' || ('\u{2000}' <= c && c <= '\u{200a}') || c
        == '\u{2028}' || c == '\u{2029}' || c == '\u{202f}' || c == '\u{205f}' || c == '\u{3000}'
}

/// Appends all of `xs` to `out`.
pub fn push_seq(out: &mut Vec<char>, xs: &Vec<char>)
    ensures
        final(out)@ == old(out)@ + xs@,
{
    let mut i: usize = 0;
    while i < xs.len()
        invariant
            i <= xs.len(),
            out@ == old(out)@ + xs@.take(i as int),
        decreases xs.len() - i,
    {
        out.push(xs[i]);
        i = i + 1;
        proof {
            assert(out@ =~= old(out)@ + xs@.take(i as int));
        }
    }
    proof {
        assert(out@ =~= old(out)@ + xs@);
    }
}

/// Does `v` hold exactly the two given characters?
pub fn eq2(v: &Vec<char>, a: char, b: char) -> (r: bool)
    ensures
        r == (v@ == seq![a, b]),
{
    let r = v.len() == 2 && v[0] == a && v[1] == b;
    proof {
        if r {
            assert(v@ =~= seq![a, b]);
        }
    }
    r
}

/// Does `v` hold exactly the three given characters?
pub fn eq3(v: &Vec<char>, a: char, b: char, c: char) -> (r: bool)
    ensures
        r == (v@ == seq![a, b, c]),
{
    let r = v.len() == 3 && v[0] == a && v[1] == b && v[2] == c;
    proof {
        if r {
            assert(v@ =~= seq![a, b, c]);
        }
    }
    r
}

/// Does `v` hold exactly the four given characters?
pub fn eq4(v: &Vec<char>, a: char, b: char, c: char, d: char) -> (r: bool)
    ensures
        r == (v@ == seq![a, b, c, d]),
{
    let r = v.len() == 4 && v[0] == a && v[1] == b && v[2] == c && v[3] == d;
    proof {
        if r {
            assert(v@ =~= seq![a, b, c, d]);
        }
    }
    r
}

/// Does `v` hold exactly the five given characters?
pub fn eq5(v: &Vec<char>, a: char, b: char, c: char, d: char, e: char) -> (r: bool)
    ensures
        r == (v@ == seq![a, b, c, d, e]),
{
    let r = v.len() == 5 && v[0] == a && v[1] == b && v[2] == c && v[3] == d && v[4] == e;
    proof {
        if r {
            assert(v@ =~= seq![a, b, c, d, e]);
        }
    }
    r
}

/// Relies on `str::chars`: it yields exactly the characters of the string, in
/// order, which is what the `Seq<char>` view of a string holds.
#[verifier::external_body]
pub fn str_chars(s: &str) -> (r: Vec<char>)
    ensures
        r@ == s@,
{
    s.chars().collect()
}

/// Relies on `String`'s `FromIterator<char>`: collecting characters builds the
/// string of exactly those characters, in order.
#[verifier::external_body]
pub fn chars_string(v: &Vec<char>) -> (r: String)
    ensures
        r@ == v@,
{
    v.iter().collect()
}

} // verus!
