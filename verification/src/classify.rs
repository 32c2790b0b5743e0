//! The tag classifier: a fixed set of void element names.
//!
//! A void tag is emitted as a single terminated statement and its children
//! are never visited; every other name is a container and always emits a
//! brace-delimited block.

use vstd::prelude::*;
use crate::text::{eq2, eq3, eq4, eq5};

verus! {

/// The fixed void-element set: `meta, link, br, img, input, hr, col, area,
/// base, wbr, track, param`.
pub open spec fn is_void(name: Seq<char>) -> bool {
    ||| name == seq!['m', 'e', 't', 'a']
    ||| name == seq!['l', 'i', 'n', 'k']
    ||| name == seq!['b', 'r']
    ||| name == seq!['i', 'm', 'g']
    ||| name == seq!['i', 'n', 'p', 'u', 't']
    ||| name == seq!['h', 'r']
    ||| name == seq!['c', 'o', 'l']
    ||| name == seq!['a', 'r', 'e', 'a']
    ||| name == seq!['b', 'a', 's', 'e']
    ||| name == seq!['w', 'b', 'r']
    ||| name == seq!['t', 'r', 'a', 'c', 'k']
    ||| name == seq!['p', 'a', 'r', 'a', 'm']
}

/// Runtime check for [`is_void`].
pub fn is_void_x(name: &Vec<char>) -> (r: bool)
    ensures
        r == is_void(name@),
{
    eq4(name, 'm', 'e', 't', 'a') || eq4(name, 'l', 'i', 'n', 'k') || eq2(name, 'b', 'r') || eq3(
        name,
        'i',
        'm',
        'g',
    ) || eq5(name, 'i', 'n', 'p', 'u', 't') || eq2(name, 'h', 'r') || eq3(name, 'c', 'o', 'l')
        || eq4(name, 'a', 'r', 'e', 'a') || eq4(name, 'b', 'a', 's', 'e') || eq3(name, 'w', 'b', 'r')
        || eq5(name, 't', 'r', 'a', 'c', 'k') || eq5(name, 'p', 'a', 'r', 'a', 'm')
}

} // verus!
