//! The book's name on its cover. The cover sheet itself is geometry in
//! millimetres and drawing, done by the renderer; which title the book
//! wears is decided here, once, so that a book called « Un été » on its
//! cover is not called something else three pages later.

use vstd::prelude::*;
use crate::chaines::{caracteres, rogne, bornes_rognees};

verus! {

/// The title the book wears: the cover's when it was given one that is not
/// blank, the album's otherwise.
pub open spec fn titre_du_livre_de(album: Seq<char>, couverture: Option<Seq<char>>) -> Seq<char> {
    match couverture {
        Some(c) => if rogne(c).len() > 0 { c } else { album },
        None => album,
    }
}

/// The title the cover sheet prints with the cover it is rendering: the
/// cover's unless it is empty.
pub open spec fn titre_de_couverture(album: Seq<char>, couverture: Seq<char>) -> Seq<char> {
    if couverture.len() == 0 { album } else { couverture }
}

fn est_vide_une_fois_rogne(s: &str) -> (b: bool)
    ensures
        b == (rogne(s@).len() == 0),
{
    let v = caracteres(s);
    let (i, j) = bornes_rognees(v.as_slice());
    i == j
}

/// The title the book wears, from the album alone: the cover's when it was
/// given one of its own, the album's name otherwise. A cover left blank
/// falls back to the album.
pub fn titre_du_livre<'a>(titre_album: &'a str, titre_couverture: Option<&'a str>) -> (r: &'a str)
    ensures
        r@ == titre_du_livre_de(titre_album@, match titre_couverture { Some(c) => Some(c@), None => None }),
{
    match titre_couverture {
        Some(c) => {
            if !est_vide_une_fois_rogne(c) {
                c
            } else {
                titre_album
            }
        },
        None => titre_album,
    }
}

/// The title of the album as the cover sheet prints it, whether or not the
/// cover editor has been opened.
pub fn cover_title<'a>(titre_album: &'a str, titre_couverture: &'a str) -> (r: &'a str)
    ensures
        r@ == titre_de_couverture(titre_album@, titre_couverture@),
{
    if titre_couverture.is_empty() {
        titre_album
    } else {
        titre_couverture
    }
}

/// The book never prints nothing for a name: when the album has one, the
/// title it wears is not blank, whatever the cover says.
pub proof fn loi_un_titre_toujours(album: Seq<char>, couverture: Option<Seq<char>>)
    requires
        rogne(album).len() > 0,
    ensures
        rogne(titre_du_livre_de(album, couverture)).len() > 0,
{
}

/// The cover sheet and the rest of the book give the book the same name
/// whenever the cover's title says something, or nothing at all.
pub proof fn loi_la_couverture_et_le_livre_s_accordent(album: Seq<char>, couverture: Seq<char>)
    requires
        rogne(couverture).len() > 0 || couverture.len() == 0,
    ensures
        titre_du_livre_de(album, Some(couverture)) == titre_de_couverture(album, couverture),
{
}

} // verus!
