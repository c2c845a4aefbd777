//! The half-title page opens the book on its title and what the machine
//! measured of when and where. Its quiet lines start with a capital: what
//! is left of the page here is how a line gets one.

use vstd::prelude::*;
use crate::chaines::{caracteres, chaine, concat, tranche};

verus! {

/// What `char::to_uppercase` makes of a character: Unicode's upper-case
/// mapping, which may be several characters (`ß` gives `SS`).
pub uninterp spec fn majuscules_de(c: char) -> Seq<char>;

/// `char::to_uppercase`, collected.
#[verifier::external_body]
fn en_majuscules(c: char) -> (r: Vec<char>)
    ensures
        r@ == majuscules_de(c),
{
    c.to_uppercase().collect()
}

/// The line with its first character in upper case, the rest as written.
pub open spec fn avec_majuscule(s: Seq<char>) -> Seq<char> {
    if s.len() == 0 {
        Seq::empty()
    } else {
        majuscules_de(s[0]) + s.drop_first()
    }
}

/// The line with its first character in upper case.
pub fn majuscule(s: &str) -> (r: String)
    ensures
        r@ == avec_majuscule(s@),
{
    let v = caracteres(s);
    if v.len() == 0 {
        return String::new();
    }
    let tete = en_majuscules(v[0]);
    let reste = tranche(v.as_slice(), 1, v.len());
    assert(reste@ =~= v@.drop_first());
    chaine(concat(tete.as_slice(), reste.as_slice()).as_slice())
}

} // verus!
