//! Page formats. The trim size is chosen once, before the album is
//! composed: it drives the margins, the templates and the printer's price
//! list. The named formats are whole millimetres; a raw `WIDTHxHEIGHT` is
//! read as numbers, and bounded, by the application.

use vstd::prelude::*;
use crate::chaines::{caracteres, chaine, concat, rogner, rogne, egales, en_decimal, decimal, espaces_apres, copie};
use crate::heic::{minuscules, en_minuscules};

verus! {

/// Named formats: name, trim width and height of a single page in
/// millimetres, and what it is.
pub const FORMATS: [(&'static str, u32, u32, &'static str); 6] = [
    ("carre-21", 210, 210, "carré 21 × 21, le format d'album courant"),
    ("carre-30", 300, 300, "carré 30 × 30, grand format de table"),
    ("portrait-a4", 210, 297, "A4 portrait"),
    ("paysage-a4", 297, 210, "A4 paysage"),
    ("paysage-28x21", 280, 210, "paysage 28 × 21"),
    ("portrait-20x25", 203, 254, "portrait 20 × 25, le 8 × 10 pouces"),
];

/// The named formats, as the contracts read them.
pub open spec fn formats() -> Seq<(Seq<char>, u32, u32, Seq<char>)> {
    seq![
        ("carre-21"@, 210u32, 210u32, "carré 21 × 21, le format d'album courant"@),
        ("carre-30"@, 300u32, 300u32, "carré 30 × 30, grand format de table"@),
        ("portrait-a4"@, 210u32, 297u32, "A4 portrait"@),
        ("paysage-a4"@, 297u32, 210u32, "A4 paysage"@),
        ("paysage-28x21"@, 280u32, 210u32, "paysage 28 × 21"@),
        ("portrait-20x25"@, 203u32, 254u32, "portrait 20 × 25, le 8 × 10 pouces"@),
    ]
}

fn tableau() -> (t: Vec<(&'static str, u32, u32, &'static str)>)
    ensures
        t@.len() == 6,
        forall|i: int| 0 <= i < 6 ==> (#[trigger] t@[i]).0@ == formats()[i].0 && t@[i].1 == formats()[i].1
            && t@[i].2 == formats()[i].2 && t@[i].3@ == formats()[i].3,
{
    let mut t = Vec::new();
    t.push(("carre-21", 210, 210, "carré 21 × 21, le format d'album courant"));
    t.push(("carre-30", 300, 300, "carré 30 × 30, grand format de table"));
    t.push(("portrait-a4", 210, 297, "A4 portrait"));
    t.push(("paysage-a4", 297, 210, "A4 paysage"));
    t.push(("paysage-28x21", 280, 210, "paysage 28 × 21"));
    t.push(("portrait-20x25", 203, 254, "portrait 20 × 25, le 8 × 10 pouces"));
    t
}

/// Items joined by a separator.
pub open spec fn jointe(items: Seq<Seq<char>>, sep: Seq<char>) -> Seq<char>
    decreases items.len(),
{
    if items.len() == 0 {
        Seq::empty()
    } else if items.len() == 1 {
        items[0]
    } else {
        jointe(items.drop_last(), sep) + sep + items.last()
    }
}

/// The names of the formats, in order.
pub open spec fn noms_formats() -> Seq<Seq<char>> {
    Seq::new(6, |i: int| formats()[i].0)
}

/// One line of help: `  NAME            W × H mm, ABOUT`, the name padded
/// to fifteen characters.
pub open spec fn ligne_aide(f: (Seq<char>, u32, u32, Seq<char>)) -> Seq<char> {
    "  "@ + espaces_apres(f.0, 15) + " "@ + decimal(f.1 as nat) + " × "@ + decimal(f.2 as nat) + " mm, "@ + f.3
}

pub open spec fn lignes_aide() -> Seq<Seq<char>> {
    Seq::new(6, |i: int| ligne_aide(formats()[i]))
}

pub(crate) fn joindre_avec(items: &Vec<Vec<char>>, sep: &Vec<char>) -> (r: Vec<char>)
    ensures
        r@ == jointe(Seq::new(items@.len(), |i: int| items@[i]@), sep@),
{
    let ghost vues = Seq::new(items@.len(), |i: int| items@[i]@);
    let mut r: Vec<char> = Vec::new();
    let mut i: usize = 0;
    while i < items.len()
        invariant
            vues == Seq::new(items@.len(), |i: int| items@[i]@),
            i <= items@.len(),
            r@ == jointe(vues.subrange(0, i as int), sep@),
        decreases items.len() - i,
    {
        let ghost avant = r@;
        if i > 0 {
            r = concat(r.as_slice(), sep.as_slice());
        }
        r = concat(r.as_slice(), items[i].as_slice());
        proof {
            let s = vues.subrange(0, i as int + 1);
            assert(s.drop_last() =~= vues.subrange(0, i as int));
            assert(s.last() == items@[i as int]@);
            if i == 0 {
                assert(avant =~= Seq::<char>::empty());
                assert(r@ =~= s[0]);
            }
        }
        i = i + 1;
    }
    assert(vues.subrange(0, i as int) =~= vues);
    r
}

/// The format names, comma-separated.
pub fn names() -> (s: String)
    ensures
        s@ == jointe(noms_formats(), ", "@),
{
    let t = tableau();
    let mut items: Vec<Vec<char>> = Vec::new();
    let mut i: usize = 0;
    while i < t.len()
        invariant
            t@.len() == 6,
            forall|i: int| 0 <= i < 6 ==> (#[trigger] t@[i]).0@ == formats()[i].0,
            i <= 6,
            items@.len() == i,
            forall|k: int| 0 <= k < i ==> (#[trigger] items@[k])@ == noms_formats()[k],
        decreases 6 - i,
    {
        items.push(caracteres(t[i].0));
        i = i + 1;
    }
    let sep = caracteres(", ");
    let r = joindre_avec(&items, &sep);
    assert(Seq::new(items@.len(), |i: int| items@[i]@) =~= noms_formats());
    chaine(r.as_slice())
}

fn rembourrer(v: &Vec<char>, largeur: usize) -> (r: Vec<char>)
    ensures
        r@ == espaces_apres(v@, largeur as nat),
{
    let mut r = copie(v.as_slice());
    while r.len() < largeur
        invariant
            r@.len() >= v@.len(),
            v@.len() >= largeur ==> r@.len() == v@.len(),
            v@.len() < largeur ==> r@.len() <= largeur,
            r@ == v@ + Seq::new((r@.len() - v@.len()) as nat, |_i: int| ' '),
        decreases largeur - r.len(),
    {
        let ghost avant = r@;
        r.push(' ');
        assert(r@ =~= v@ + Seq::new((r@.len() - v@.len()) as nat, |_i: int| ' '));
    }
    proof {
        if v@.len() < largeur {
            assert(r@.len() == largeur);
            assert(r@ =~= espaces_apres(v@, largeur as nat));
        } else {
            assert(Seq::new((r@.len() - v@.len()) as nat, |_i: int| ' ') =~= Seq::<char>::empty());
            assert(r@ =~= v@);
        }
    }
    r
}

/// Help text listing every preset with its dimensions, one per line.
pub fn help() -> (s: String)
    ensures
        s@ == jointe(lignes_aide(), "\n"@),
{
    let t = tableau();
    let mut lignes: Vec<Vec<char>> = Vec::new();
    let mut i: usize = 0;
    while i < t.len()
        invariant
            t@.len() == 6,
            forall|i: int| 0 <= i < 6 ==> (#[trigger] t@[i]).0@ == formats()[i].0 && t@[i].1 == formats()[i].1
                && t@[i].2 == formats()[i].2 && t@[i].3@ == formats()[i].3,
            i <= 6,
            lignes@.len() == i,
            forall|k: int| 0 <= k < i ==> (#[trigger] lignes@[k])@ == lignes_aide()[k],
        decreases 6 - i,
    {
        let (n, w, h, about) = t[i];
        let mut l = caracteres("  ");
        l = concat(l.as_slice(), rembourrer(&caracteres(n), 15).as_slice());
        l = concat(l.as_slice(), caracteres(" ").as_slice());
        l = concat(l.as_slice(), en_decimal(w as u64).as_slice());
        l = concat(l.as_slice(), caracteres(" × ").as_slice());
        l = concat(l.as_slice(), en_decimal(h as u64).as_slice());
        l = concat(l.as_slice(), caracteres(" mm, ").as_slice());
        l = concat(l.as_slice(), caracteres(about).as_slice());
        lignes.push(l);
        i = i + 1;
    }
    let sep = caracteres("\n");
    let r = joindre_avec(&lignes, &sep);
    assert(Seq::new(lignes@.len(), |i: int| lignes@[i]@) =~= lignes_aide());
    chaine(r.as_slice())
}

/// What a format argument reads as, before any number is read.
#[derive(Debug, Clone)]
pub enum Lecture {
    /// A named format, in whole millimetres.
    Nomme { largeur_mm: u32, hauteur_mm: u32 },
    /// `WIDTHxHEIGHT` (or `*`): the two sides as written, to be read as
    /// millimetres and held between 80 and 500.
    Mesure { largeur: String, hauteur: String },
}

/// Why a format argument is refused.
#[derive(Debug, Clone, Copy, PartialEq, Eq, Structural)]
pub enum ErreurFormat {
    /// Neither a named format nor two sides.
    Inconnu,
}

/// The key a format argument is looked up under: trimmed, lower-cased.
pub open spec fn cle(spec: Seq<char>) -> Seq<char> {
    en_minuscules(rogne(spec))
}

/// The first `x` or `*` of a key.
pub open spec fn premier_separateur(s: Seq<char>) -> Option<int>
    decreases s.len(),
{
    if s.len() == 0 {
        None
    } else if s[0] == 'x' || s[0] == '*' {
        Some(0)
    } else {
        match premier_separateur(s.drop_first()) {
            Some(p) => Some(p + 1),
            None => None,
        }
    }
}

/// The first named format, from the `i`-th on, whose name is the key.
pub open spec fn nomme_depuis(k: Seq<char>, i: int) -> Option<int>
    decreases 6 - i,
{
    if i < 0 || i >= 6 {
        None
    } else if formats()[i].0 == k {
        Some(i)
    } else {
        nomme_depuis(k, i + 1)
    }
}

/// The first named format whose name is the key.
pub open spec fn nomme(k: Seq<char>) -> Option<int> {
    nomme_depuis(k, 0)
}

/// Accepts a preset name or a raw `WIDTHxHEIGHT`: a named format reads as
/// its millimetres, anything with an `x` or a `*` as its two sides, split at
/// the first one; anything else is unknown.
pub fn parse(spec: &str) -> (r: Result<Lecture, ErreurFormat>)
    ensures
        match nomme(cle(spec@)) {
            Some(i) => r matches Ok(Lecture::Nomme { largeur_mm, hauteur_mm })
                && largeur_mm == formats()[i].1 && hauteur_mm == formats()[i].2,
            None => match premier_separateur(cle(spec@)) {
                Some(p) => r matches Ok(Lecture::Mesure { largeur, hauteur })
                    && largeur@ == cle(spec@).subrange(0, p)
                    && hauteur@ == cle(spec@).subrange(p + 1, cle(spec@).len() as int),
                None => r == Err::<Lecture, ErreurFormat>(ErreurFormat::Inconnu),
            },
        },
{
    let brut = caracteres(spec);
    let k = minuscules(rogner(brut.as_slice()).as_slice());
    let t = tableau();
    let mut i: usize = 0;
    while i < t.len()
        invariant
            t@.len() == 6,
            forall|i: int| 0 <= i < 6 ==> (#[trigger] t@[i]).0@ == formats()[i].0 && t@[i].1 == formats()[i].1
                && t@[i].2 == formats()[i].2,
            k@ == cle(spec@),
            i <= 6,
            nomme(k@) == nomme_depuis(k@, i as int),
        decreases 6 - i,
    {
        if egales(caracteres(t[i].0).as_slice(), k.as_slice()) {
            return Ok(Lecture::Nomme { largeur_mm: t[i].1, hauteur_mm: t[i].2 });
        }
        i = i + 1;
    }
    let mut p: usize = 0;
    assert(k@.subrange(0, k@.len() as int) =~= k@);
    proof {
        match premier_separateur(k@) {
            Some(q) => assert(q + 0 == q),
            None => {},
        }
    }
    while p < k.len() && !(k[p] == 'x' || k[p] == '*')
        invariant
            p <= k@.len(),
            premier_separateur(k@) == match premier_separateur(k@.subrange(p as int, k@.len() as int)) {
                Some(q) => Some(q + p),
                None => None,
            },
        decreases k.len() - p,
    {
        assert(k@.subrange(p as int, k@.len() as int).drop_first() =~= k@.subrange(p + 1, k@.len() as int));
        p = p + 1;
    }
    proof {
        if p == k@.len() {
            assert(k@.subrange(p as int, k@.len() as int).len() == 0);
        } else {
            assert(k@.subrange(p as int, k@.len() as int)[0] == k@[p as int]);
        }
    }
    if p == k.len() {
        return Err(ErreurFormat::Inconnu);
    }
    let largeur = chaine(crate::chaines::tranche(k.as_slice(), 0, p).as_slice());
    let hauteur = chaine(crate::chaines::tranche(k.as_slice(), p + 1, k.len()).as_slice());
    Ok(Lecture::Mesure { largeur, hauteur })
}

} // verus!
