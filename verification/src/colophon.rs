//! The colophon page says what only the machine knows: how many
//! photographs were looked at before these were kept, what stretch of time
//! they cover, which towns they were taken in, which cameras took them.
//! Never a path, never a coordinate, never a caption. Gathering the facts
//! reads the photographs and is done at composition time; writing the page
//! from them is done here.

use vstd::prelude::*;
use crate::chaines::{caracteres, chaine, concat};
use crate::format::{jointe, joindre_avec};
use crate::construction::{Date, date_valide, date_texte, date_en_texte_pub, annee_texte, Chapitre, bornes, bornes_de};
use crate::chaines::rogne;
use crate::legende::{sans_separateur, lemme_concat_sans_separateur, lemme_decimal_sans_separateur, lemme_date_sans_separateur};

verus! {

/// « a, b et c »: commas between all but the last two, « et » before the
/// last.
pub open spec fn liste_de(v: Seq<Seq<char>>) -> Seq<char> {
    if v.len() == 0 {
        Seq::empty()
    } else if v.len() == 1 {
        v[0]
    } else {
        jointe(v.drop_last(), ", "@) + " et "@ + v.last()
    }
}

/// The items of a list, as characters.
pub open spec fn vues_liste(v: Seq<String>) -> Seq<Seq<char>> {
    Seq::new(v.len(), |i: int| v[i]@)
}

/// « a, b et c ». The last separator is a word, the way a sentence joins
/// things, not a comma the way a database does.
pub fn liste(v: &[String]) -> (s: String)
    ensures
        s@ == liste_de(vues_liste(v@)),
{
    let n = v.len();
    if n == 0 {
        return String::new();
    }
    if n == 1 {
        let s = v[0].clone();
        return s;
    }
    let virgule = caracteres(", ");
    let mut r: Vec<char> = Vec::new();
    let ghost vues = vues_liste(v@);
    let mut i: usize = 0;
    while i < n - 1
        invariant
            n == v@.len(),
            n >= 2,
            vues == vues_liste(v@),
            virgule@ == ", "@,
            i <= n - 1,
            r@ == jointe(vues.subrange(0, i as int), ", "@),
        decreases n - 1 - i,
    {
        let ghost avant = r@;
        if i > 0 {
            r = concat(r.as_slice(), virgule.as_slice());
        }
        r = concat(r.as_slice(), caracteres(v[i].as_str()).as_slice());
        proof {
            let s = vues.subrange(0, i as int + 1);
            assert(s.drop_last() =~= vues.subrange(0, i as int));
            if i == 0 {
                assert(avant =~= Seq::<char>::empty());
                assert(r@ =~= s[0]);
            }
        }
        i = i + 1;
    }
    assert(vues.subrange(0, n - 1) =~= vues.drop_last());
    r = concat(r.as_slice(), caracteres(" et ").as_slice());
    r = concat(r.as_slice(), caracteres(v[n - 1].as_str()).as_slice());
    chaine(r.as_slice())
}

/// What the composition knew about the album, kept for the page: counts,
/// dates, towns and camera models, nothing that could identify a file.
#[derive(Debug, Clone)]
pub struct Faits {
    /// Photographs the album shows, over the photographs the folder held.
    pub photos_retenues: usize,
    pub photos_scannees: usize,
    /// Span of the trusted capture dates; absent when no photo carried one.
    pub debut: Option<Date>,
    pub fin: Option<Date>,
    /// Towns the gazetteer agreed on, in reading order.
    pub lieux: Vec<String>,
    /// Camera models, most used first.
    pub appareils: Vec<String>,
    pub compose_le: Date,
}

/// The span the album covers, as a sentence fragment: « le 21 octobre 2013 »
/// for one day, « du 21 au 29 octobre 2013 » within a month, « du 29
/// décembre 2013 au 2 janvier 2014 » across a year.
pub open spec fn periode_de(debut: Option<Date>, fin: Option<Date>) -> Option<Seq<char>> {
    match (debut, fin) {
        (Some(d), Some(e)) => if d == e {
            Some("le "@ + date_texte(d, true))
        } else {
            let depart = if d.annee != e.annee {
                date_texte(d, true)
            } else if d.mois != e.mois {
                date_texte(d, false)
            } else {
                crate::chaines::decimal(d.jour as nat)
            };
            Some("du "@ + depart + " au "@ + date_texte(e, true))
        },
        _ => None,
    }
}

/// The span the album covers, or nothing when no photo carried a trusted
/// capture date: a page then says nothing about time rather than print a
/// copy date as a shooting date.
pub fn periode(debut: Option<Date>, fin: Option<Date>) -> (r: Option<String>)
    requires
        debut matches Some(d) ==> date_valide(d),
        fin matches Some(e) ==> date_valide(e),
    ensures
        match periode_de(debut, fin) {
            None => r is None,
            Some(p) => r matches Some(s) && s@ == p,
        },
{
    match (debut, fin) {
        (Some(d), Some(e)) => {
            if d == e {
                let l = concat(caracteres("le ").as_slice(), date_en_texte_pub(d, true).as_slice());
                Some(chaine(l.as_slice()))
            } else {
                let depart = if d.annee != e.annee {
                    date_en_texte_pub(d, true)
                } else if d.mois != e.mois {
                    date_en_texte_pub(d, false)
                } else {
                    crate::chaines::en_decimal(d.jour as u64)
                };
                let a = concat(caracteres("du ").as_slice(), depart.as_slice());
                let b = concat(a.as_slice(), caracteres(" au ").as_slice());
                let c = concat(b.as_slice(), date_en_texte_pub(e, true).as_slice());
                Some(chaine(c.as_slice()))
            }
        },
        _ => None,
    }
}

/// Millimetres and grammages in tenths, written whole when they are whole:
/// « 210 », not « 210.0 »; « 203.2 » otherwise.
pub open spec fn arrondi_de(dixiemes: u64) -> Seq<char> {
    if dixiemes % 10 == 0 {
        crate::chaines::decimal((dixiemes / 10) as nat)
    } else {
        crate::chaines::decimal((dixiemes / 10) as nat) + seq!['.'] + crate::chaines::decimal((dixiemes % 10) as nat)
    }
}

fn arrondi(dixiemes: u64) -> (r: Vec<char>)
    ensures
        r@ == arrondi_de(dixiemes),
{
    let entier = crate::chaines::en_decimal(dixiemes / 10);
    if dixiemes % 10 == 0 {
        entier
    } else {
        let a = concat(entier.as_slice(), &['.']);
        concat(a.as_slice(), crate::chaines::en_decimal(dixiemes % 10).as_slice())
    }
}

/// The counts line: « 152 photographies retenues sur 575, prises du 21 au
/// 29 octobre 2013. », singular for one, without the span when there is
/// none.
pub open spec fn ligne_des_comptes(f: Faits) -> Seq<char> {
    let retenues = if f.photos_retenues == 1 {
        "1 photographie retenue"@
    } else {
        crate::chaines::decimal(f.photos_retenues as nat) + " photographies retenues"@
    };
    match periode_de(f.debut, f.fin) {
        Some(p) => retenues + " sur "@ + crate::chaines::decimal(f.photos_scannees as nat) + ", prises "@ + p + seq!['.'],
        None => retenues + " sur "@ + crate::chaines::decimal(f.photos_scannees as nat) + seq!['.'],
    }
}

/// The page's lines: the title, a blank, the counts, the towns and the
/// cameras when there are any, a blank, then what the object is.
pub open spec fn lignes_de(f: Faits, largeur: u64, hauteur: u64, grammage: u64, version: Seq<char>) -> Seq<Seq<char>> {
    let tete = seq!["Colophon"@, Seq::<char>::empty(), ligne_des_comptes(f)];
    let avec_lieux = if f.lieux@.len() > 0 { tete.push(liste_de(vues_liste(f.lieux@)) + seq!['.']) } else { tete };
    let avec_appareils = if f.appareils@.len() > 0 {
        avec_lieux.push(liste_de(vues_liste(f.appareils@)) + seq!['.'])
    } else {
        avec_lieux
    };
    avec_appareils.push(Seq::<char>::empty())
        .push("Composé le "@ + date_texte(f.compose_le, true) + " avec Colophon "@ + version + seq!['.'])
        .push(arrondi_de(largeur) + " × "@ + arrondi_de(hauteur) + " mm, papier "@ + arrondi_de(grammage) + " g/m\u{b2}."@)
}

/// The colophon page as it prints, line by line. The trim size and the
/// paper's grammage come in tenths of a millimetre and of a gram: the paper
/// is the supplier's, so it follows the file being written.
pub fn texte(f: &Faits, largeur_dixiemes: u64, hauteur_dixiemes: u64, grammage_dixiemes: u64, version: &str) -> (s: String)
    requires
        f.debut matches Some(d) ==> date_valide(d),
        f.fin matches Some(e) ==> date_valide(e),
        date_valide(f.compose_le),
    ensures
        s@ == jointe(lignes_de(*f, largeur_dixiemes, hauteur_dixiemes, grammage_dixiemes, version@), "\n"@),
{
    let mut l: Vec<Vec<char>> = Vec::new();
    l.push(caracteres("Colophon"));
    l.push(Vec::new());
    let retenues = if f.photos_retenues == 1 {
        caracteres("1 photographie retenue")
    } else {
        concat(crate::chaines::en_decimal(f.photos_retenues as u64).as_slice(), caracteres(" photographies retenues").as_slice())
    };
    let sur = concat(retenues.as_slice(), caracteres(" sur ").as_slice());
    let sur_n = concat(sur.as_slice(), crate::chaines::en_decimal(f.photos_scannees as u64).as_slice());
    let comptes = match periode(f.debut, f.fin) {
        Some(p) => {
            let a = concat(sur_n.as_slice(), caracteres(", prises ").as_slice());
            let b = concat(a.as_slice(), caracteres(p.as_str()).as_slice());
            concat(b.as_slice(), &['.'])
        },
        None => concat(sur_n.as_slice(), &['.']),
    };
    assert(comptes@ == ligne_des_comptes(*f));
    l.push(comptes);
    let ghost tete = seq!["Colophon"@, Seq::<char>::empty(), ligne_des_comptes(*f)];
    assert(Seq::new(l@.len(), |i: int| l@[i]@) =~= tete);
    let ghost avec_lieux = if f.lieux@.len() > 0 { tete.push(liste_de(vues_liste(f.lieux@)) + seq!['.']) } else { tete };
    if f.lieux.len() > 0 {
        let x = concat(caracteres(liste(f.lieux.as_slice()).as_str()).as_slice(), &['.']);
        assert(x@ =~= liste_de(vues_liste(f.lieux@)) + seq!['.']);
        l.push(x);
    }
    assert(Seq::new(l@.len(), |i: int| l@[i]@) =~= avec_lieux);
    let ghost avec_appareils = if f.appareils@.len() > 0 {
        avec_lieux.push(liste_de(vues_liste(f.appareils@)) + seq!['.'])
    } else {
        avec_lieux
    };
    if f.appareils.len() > 0 {
        let x = concat(caracteres(liste(f.appareils.as_slice()).as_str()).as_slice(), &['.']);
        assert(x@ =~= liste_de(vues_liste(f.appareils@)) + seq!['.']);
        l.push(x);
    }
    assert(Seq::new(l@.len(), |i: int| l@[i]@) =~= avec_appareils);
    l.push(Vec::new());
    let a = concat(caracteres("Composé le ").as_slice(), date_en_texte_pub(f.compose_le, true).as_slice());
    let b = concat(a.as_slice(), caracteres(" avec Colophon ").as_slice());
    let c = concat(b.as_slice(), caracteres(version).as_slice());
    let x = concat(c.as_slice(), &['.']);
    assert(x@ =~= "Composé le "@ + date_texte(f.compose_le, true) + " avec Colophon "@ + version@ + seq!['.']);
    l.push(x);
    let d = concat(arrondi(largeur_dixiemes).as_slice(), caracteres(" × ").as_slice());
    let e = concat(d.as_slice(), arrondi(hauteur_dixiemes).as_slice());
    let g = concat(e.as_slice(), caracteres(" mm, papier ").as_slice());
    let h = concat(g.as_slice(), arrondi(grammage_dixiemes).as_slice());
    let y = concat(h.as_slice(), caracteres(" g/m\u{b2}.").as_slice());
    assert(y@ =~= arrondi_de(largeur_dixiemes) + " × "@ + arrondi_de(hauteur_dixiemes) + " mm, papier "@ + arrondi_de(grammage_dixiemes) + " g/m\u{b2}."@);
    l.push(y);
    let sep = caracteres("\n");
    let r = joindre_avec(&l, &sep);
    proof {
        let attendu = lignes_de(*f, largeur_dixiemes, hauteur_dixiemes, grammage_dixiemes, version@);
        assert(Seq::new(l@.len(), |i: int| l@[i]@) =~= attendu);
    }
    chaine(r.as_slice())
}


// --- Never a path -------------------------------------------------------------------

proof fn lemme_jointe_sans_separateur(items: Seq<Seq<char>>, sep: Seq<char>)
    requires
        forall|i: int| 0 <= i < items.len() ==> sans_separateur(#[trigger] items[i]),
        sans_separateur(sep),
    ensures
        sans_separateur(jointe(items, sep)),
    decreases items.len(),
{
    if items.len() >= 2 {
        let t = items.drop_last();
        assert forall|i: int| 0 <= i < t.len() implies sans_separateur(#[trigger] t[i]) by {
            assert(t[i] == items[i]);
        }
        lemme_jointe_sans_separateur(t, sep);
        assert(items.last() == items[items.len() - 1]);
        lemme_concat_sans_separateur(jointe(t, sep), sep);
        lemme_concat_sans_separateur(jointe(t, sep) + sep, items.last());
    } else if items.len() == 1 {
        assert(sans_separateur(items[0]));
    }
}

proof fn lemme_liste_sans_separateur(v: Seq<Seq<char>>)
    requires
        forall|i: int| 0 <= i < v.len() ==> sans_separateur(#[trigger] v[i]),
    ensures
        sans_separateur(liste_de(v)),
{
    if v.len() == 1 {
        assert(sans_separateur(v[0]));
    } else if v.len() >= 2 {
        let t = v.drop_last();
        assert forall|i: int| 0 <= i < t.len() implies sans_separateur(#[trigger] t[i]) by {
            assert(t[i] == v[i]);
        }
        reveal_strlit(", ");
        reveal_strlit(" et ");
        assert(sans_separateur(", "@));
        assert(sans_separateur(" et "@));
        lemme_jointe_sans_separateur(t, ", "@);
        assert(v.last() == v[v.len() - 1]);
        lemme_concat_sans_separateur(jointe(t, ", "@), " et "@);
        lemme_concat_sans_separateur(jointe(t, ", "@) + " et "@, v.last());
    }
}

proof fn lemme_vues_sans_separateur(v: Seq<String>)
    requires
        forall|i: int| 0 <= i < v.len() ==> sans_separateur(#[trigger] v[i]@),
    ensures
        sans_separateur(liste_de(vues_liste(v)) + seq!['.']),
{
    let w = vues_liste(v);
    assert forall|i: int| 0 <= i < w.len() implies sans_separateur(#[trigger] w[i]) by {
        assert(w[i] == v[i]@);
    }
    lemme_liste_sans_separateur(w);
    assert(sans_separateur(seq!['.']));
    lemme_concat_sans_separateur(liste_de(w), seq!['.']);
}

proof fn lemme_periode_sans_separateur(debut: Option<Date>, fin: Option<Date>)
    ensures
        periode_de(debut, fin) matches Some(p) ==> sans_separateur(p),
{
    if let (Some(d), Some(e)) = (debut, fin) {
        reveal_strlit("le ");
        reveal_strlit("du ");
        reveal_strlit(" au ");
        assert(sans_separateur("le "@));
        assert(sans_separateur("du "@));
        assert(sans_separateur(" au "@));
        lemme_date_sans_separateur(d, true);
        lemme_date_sans_separateur(d, false);
        lemme_date_sans_separateur(e, true);
        lemme_decimal_sans_separateur(d.jour as nat);
        if d == e {
            lemme_concat_sans_separateur("le "@, date_texte(d, true));
        } else {
            let depart = if d.annee != e.annee {
                date_texte(d, true)
            } else if d.mois != e.mois {
                date_texte(d, false)
            } else {
                crate::chaines::decimal(d.jour as nat)
            };
            lemme_concat_sans_separateur("du "@, depart);
            lemme_concat_sans_separateur("du "@ + depart, " au "@);
            lemme_concat_sans_separateur("du "@ + depart + " au "@, date_texte(e, true));
        }
    }
}

proof fn lemme_comptes_sans_separateur(f: Faits)
    ensures
        sans_separateur(ligne_des_comptes(f)),
{
    reveal_strlit("1 photographie retenue");
    reveal_strlit(" photographies retenues");
    reveal_strlit(" sur ");
    reveal_strlit(", prises ");
    assert(sans_separateur("1 photographie retenue"@));
    assert(sans_separateur(" photographies retenues"@));
    assert(sans_separateur(" sur "@));
    assert(sans_separateur(", prises "@));
    assert(sans_separateur(seq!['.']));
    lemme_decimal_sans_separateur(f.photos_retenues as nat);
    lemme_decimal_sans_separateur(f.photos_scannees as nat);
    lemme_concat_sans_separateur(crate::chaines::decimal(f.photos_retenues as nat), " photographies retenues"@);
    let retenues = if f.photos_retenues == 1 {
        "1 photographie retenue"@
    } else {
        crate::chaines::decimal(f.photos_retenues as nat) + " photographies retenues"@
    };
    let a = retenues + " sur "@ + crate::chaines::decimal(f.photos_scannees as nat);
    lemme_concat_sans_separateur(retenues, " sur "@);
    lemme_concat_sans_separateur(retenues + " sur "@, crate::chaines::decimal(f.photos_scannees as nat));
    lemme_periode_sans_separateur(f.debut, f.fin);
    match periode_de(f.debut, f.fin) {
        Some(p) => {
            lemme_concat_sans_separateur(a, ", prises "@);
            lemme_concat_sans_separateur(a + ", prises "@, p);
            lemme_concat_sans_separateur(a + ", prises "@ + p, seq!['.']);
        },
        None => {
            lemme_concat_sans_separateur(a, seq!['.']);
        },
    }
}

proof fn lemme_arrondi_sans_separateur(x: u64)
    ensures
        sans_separateur(arrondi_de(x)),
{
    lemme_decimal_sans_separateur((x / 10) as nat);
    lemme_decimal_sans_separateur((x % 10) as nat);
    assert(sans_separateur(seq!['.']));
    lemme_concat_sans_separateur(crate::chaines::decimal((x / 10) as nat), seq!['.']);
    lemme_concat_sans_separateur(crate::chaines::decimal((x / 10) as nat) + seq!['.'], crate::chaines::decimal((x % 10) as nat));
}

/// Never a path on the page: whatever the album's towns, cameras and the
/// version printed, as long as none of them holds a path separator, the
/// page holds no backslash, and its one slash is the one of « g/m² » that
/// ends it.
pub proof fn loi_la_page_ne_porte_aucun_chemin(f: Faits, largeur: u64, hauteur: u64, grammage: u64, version: Seq<char>)
    requires
        forall|i: int| 0 <= i < f.lieux@.len() ==> sans_separateur(#[trigger] f.lieux@[i]@),
        forall|i: int| 0 <= i < f.appareils@.len() ==> sans_separateur(#[trigger] f.appareils@[i]@),
        sans_separateur(version),
    ensures
        ({
            let t = jointe(lignes_de(f, largeur, hauteur, grammage, version), "\n"@);
            &&& t.len() >= 6
            &&& t.subrange(t.len() - 6, t.len() as int) == " g/m\u{b2}."@
            &&& sans_separateur(t.subrange(0, t.len() - 6))
        }),
{
    let l = lignes_de(f, largeur, hauteur, grammage, version);
    reveal_strlit("Colophon");
    reveal_strlit("Composé le ");
    reveal_strlit(" avec Colophon ");
    reveal_strlit(" × ");
    reveal_strlit(" mm, papier ");
    reveal_strlit(" g/m\u{b2}.");
    reveal_strlit("\n");
    assert(sans_separateur("Colophon"@));
    assert(sans_separateur(Seq::<char>::empty()));
    assert(sans_separateur("Composé le "@));
    assert(sans_separateur(" avec Colophon "@));
    assert(sans_separateur(" × "@));
    assert(sans_separateur(" mm, papier "@));
    assert(sans_separateur("\n"@));
    assert(sans_separateur(seq!['.']));
    lemme_comptes_sans_separateur(f);
    lemme_vues_sans_separateur(f.lieux@);
    lemme_vues_sans_separateur(f.appareils@);
    lemme_date_sans_separateur(f.compose_le, true);
    let compose = "Composé le "@ + date_texte(f.compose_le, true) + " avec Colophon "@ + version + seq!['.'];
    lemme_concat_sans_separateur("Composé le "@, date_texte(f.compose_le, true));
    lemme_concat_sans_separateur("Composé le "@ + date_texte(f.compose_le, true), " avec Colophon "@);
    lemme_concat_sans_separateur("Composé le "@ + date_texte(f.compose_le, true) + " avec Colophon "@, version);
    lemme_concat_sans_separateur("Composé le "@ + date_texte(f.compose_le, true) + " avec Colophon "@ + version, seq!['.']);
    lemme_arrondi_sans_separateur(largeur);
    lemme_arrondi_sans_separateur(hauteur);
    lemme_arrondi_sans_separateur(grammage);
    let x = arrondi_de(largeur) + " × "@ + arrondi_de(hauteur) + " mm, papier "@ + arrondi_de(grammage);
    lemme_concat_sans_separateur(arrondi_de(largeur), " × "@);
    lemme_concat_sans_separateur(arrondi_de(largeur) + " × "@, arrondi_de(hauteur));
    lemme_concat_sans_separateur(arrondi_de(largeur) + " × "@ + arrondi_de(hauteur), " mm, papier "@);
    lemme_concat_sans_separateur(arrondi_de(largeur) + " × "@ + arrondi_de(hauteur) + " mm, papier "@, arrondi_de(grammage));
    let avant = l.drop_last();
    assert forall|i: int| 0 <= i < avant.len() implies sans_separateur(#[trigger] avant[i]) by {
        assert(avant[i] == l[i]);
    }
    lemme_jointe_sans_separateur(avant, "\n"@);
    let p = jointe(avant, "\n"@) + "\n"@ + x;
    lemme_concat_sans_separateur(jointe(avant, "\n"@), "\n"@);
    lemme_concat_sans_separateur(jointe(avant, "\n"@) + "\n"@, x);
    let t = jointe(l, "\n"@);
    assert(l.last() == x + " g/m\u{b2}."@);
    assert(t == jointe(avant, "\n"@) + "\n"@ + l.last());
    assert(t =~= p + " g/m\u{b2}."@);
    assert(" g/m\u{b2}."@.len() == 6);
    assert(t.subrange(t.len() - 6, t.len() as int) =~= " g/m\u{b2}."@);
    assert(t.subrange(0, t.len() - 6) =~= p);
}

// --- Gathering the facts ----------------------------------------------------------

/// The jours of every chapter, in reading order.
pub open spec fn jours_des(cs: Seq<Chapitre>) -> Seq<Date>
    decreases cs.len(),
{
    if cs.len() == 0 {
        Seq::empty()
    } else {
        jours_des(cs.drop_last()) + cs.last().jours@
    }
}

/// The towns the chapters name, in reading order, repeats included.
pub open spec fn lieux_nommes(cs: Seq<Chapitre>) -> Seq<Seq<char>>
    decreases cs.len(),
{
    if cs.len() == 0 {
        Seq::empty()
    } else {
        match cs.last().lieu {
            Some(l) => lieux_nommes(cs.drop_last()).push(l@),
            None => lieux_nommes(cs.drop_last()),
        }
    }
}

/// A camera model as the page would name it: without its surrounding white
/// space, and only when something is left.
pub open spec fn modele_retenu(m: Option<String>) -> Option<Seq<char>> {
    match m {
        Some(s) => if rogne(s@).len() > 0 { Some(rogne(s@)) } else { None },
        None => None,
    }
}

/// The models these photographs name, in order.
pub open spec fn modeles_nommes(ms: Seq<Option<String>>) -> Seq<Seq<char>>
    decreases ms.len(),
{
    if ms.len() == 0 {
        Seq::empty()
    } else {
        match modele_retenu(ms.last()) {
            Some(m) => modeles_nommes(ms.drop_last()).push(m),
            None => modeles_nommes(ms.drop_last()),
        }
    }
}

/// The models every photograph of every chapter names, in reading order.
pub open spec fn modeles_des(cs: Seq<Chapitre>) -> Seq<Seq<char>>
    decreases cs.len(),
{
    if cs.len() == 0 {
        Seq::empty()
    } else {
        modeles_des(cs.drop_last()) + modeles_nommes(cs.last().modeles@)
    }
}

/// Each item once, where it first appears.
pub open spec fn distincts(s: Seq<Seq<char>>) -> Seq<Seq<char>>
    decreases s.len(),
{
    if s.len() == 0 {
        Seq::empty()
    } else if distincts(s.drop_last()).contains(s.last()) {
        distincts(s.drop_last())
    } else {
        distincts(s.drop_last()).push(s.last())
    }
}

/// How many times `m` occurs in `s`.
pub open spec fn compte(s: Seq<Seq<char>>, m: Seq<char>) -> nat
    decreases s.len(),
{
    if s.len() == 0 {
        0
    } else {
        compte(s.drop_last(), m) + if s.last() == m { 1nat } else { 0nat }
    }
}

/// Character order, the order in which strings compare.
pub open spec fn avant_lex(a: Seq<char>, b: Seq<char>) -> bool
    decreases a.len(),
{
    if a.len() == 0 {
        b.len() > 0
    } else if b.len() == 0 {
        false
    } else if a[0] != b[0] {
        (a[0] as u32) < (b[0] as u32)
    } else {
        avant_lex(a.drop_first(), b.drop_first())
    }
}

/// `a` is named before `b`: it took more of the photographs, or as many and
/// comes first in character order.
pub open spec fn devance(s: Seq<Seq<char>>, a: Seq<char>, b: Seq<char>) -> bool {
    compte(s, a) > compte(s, b) || (compte(s, a) == compte(s, b) && avant_lex(a, b))
}

/// At most `n` of them, the first ones.
pub open spec fn premiers(s: Seq<Seq<char>>, n: nat) -> Seq<Seq<char>> {
    if s.len() <= n { s } else { s.take(n as int) }
}

/// `r` is what the page names of the cameras in `s`: the most used first,
/// ties in character order, at most three.
pub open spec fn appareils_choisis(s: Seq<Seq<char>>, r: Seq<Seq<char>>) -> bool {
    let d = distincts(s);
    &&& r.len() == if d.len() < 3 { d.len() } else { 3 }
    &&& forall|i: int| 0 <= i < r.len() ==> d.contains(#[trigger] r[i])
    &&& forall|i: int, j: int| 0 <= i < j < r.len() ==> devance(s, #[trigger] r[i], #[trigger] r[j])
    &&& forall|m: Seq<char>, i: int| #![trigger d.contains(m), r[i]]
        0 <= i < r.len() && d.contains(m) && !r.contains(m) ==> devance(s, r[i], m)
}

/// Character sequences, as characters.
pub open spec fn vues_car(v: Seq<Vec<char>>) -> Seq<Seq<char>> {
    Seq::new(v.len(), |i: int| v[i]@)
}

// Order lemmas.

pub proof fn lemme_lex_irreflexif(a: Seq<char>)
    ensures
        !avant_lex(a, a),
    decreases a.len(),
{
    if a.len() > 0 {
        lemme_lex_irreflexif(a.drop_first());
    }
}

pub proof fn lemme_lex_transitif(a: Seq<char>, b: Seq<char>, c: Seq<char>)
    requires
        avant_lex(a, b),
        avant_lex(b, c),
    ensures
        avant_lex(a, c),
    decreases a.len(),
{
    if a.len() > 0 && b.len() > 0 && c.len() > 0 {
        if a[0] == b[0] && b[0] == c[0] {
            lemme_lex_transitif(a.drop_first(), b.drop_first(), c.drop_first());
        }
    }
}

pub proof fn lemme_lex_total(a: Seq<char>, b: Seq<char>)
    requires
        a != b,
    ensures
        avant_lex(a, b) || avant_lex(b, a),
    decreases a.len(),
{
    if a.len() > 0 && b.len() > 0 && a[0] == b[0] {
        if a.drop_first() == b.drop_first() {
            assert(a =~= seq![a[0]] + a.drop_first());
            assert(b =~= seq![b[0]] + b.drop_first());
        }
        lemme_lex_total(a.drop_first(), b.drop_first());
    } else if a.len() > 0 && b.len() > 0 {
        assert((a[0] as u32) != (b[0] as u32)) by {
            vstd::utf8::char_u32_cast(a[0], a[0] as u32);
            vstd::utf8::char_u32_cast(b[0], b[0] as u32);
        }
    } else if a.len() == 0 && b.len() == 0 {
        assert(a =~= b);
    }
}

pub proof fn lemme_devance_strict(s: Seq<Seq<char>>, a: Seq<char>, b: Seq<char>)
    ensures
        devance(s, a, b) ==> !devance(s, b, a),
        !devance(s, a, a),
{
    lemme_lex_irreflexif(a);
    if devance(s, a, b) && devance(s, b, a) {
        lemme_lex_transitif(a, b, a);
    }
}

pub proof fn lemme_devance_transitif(s: Seq<Seq<char>>, a: Seq<char>, b: Seq<char>, c: Seq<char>)
    requires
        devance(s, a, b),
        devance(s, b, c),
    ensures
        devance(s, a, c),
{
    if compte(s, a) == compte(s, b) && compte(s, b) == compte(s, c) {
        lemme_lex_transitif(a, b, c);
    }
}

pub proof fn lemme_devance_total(s: Seq<Seq<char>>, a: Seq<char>, b: Seq<char>)
    requires
        a != b,
    ensures
        devance(s, a, b) || devance(s, b, a),
{
    lemme_lex_total(a, b);
}

proof fn lemme_meme_debut(s: Seq<Seq<char>>, r1: Seq<Seq<char>>, r2: Seq<Seq<char>>, k: int)
    requires
        appareils_choisis(s, r1),
        appareils_choisis(s, r2),
        0 <= k <= r1.len(),
    ensures
        forall|q: int| 0 <= q < k ==> r1[q] == r2[q],
    decreases k,
{
    if k > 0 {
        lemme_meme_debut(s, r1, r2, k - 1);
        let i = k - 1;
        if r1[i] != r2[i] {
            assert(devance(s, r1[i], r2[i])) by {
                lemme_premier_devant(s, r1, r2, i);
            }
            assert(devance(s, r2[i], r1[i])) by {
                assert forall|q: int| 0 <= q < i implies r2[q] == r1[q] by {}
                lemme_premier_devant(s, r2, r1, i);
            }
            lemme_devance_strict(s, r1[i], r2[i]);
        }
    }
}

proof fn lemme_premier_devant(s: Seq<Seq<char>>, r1: Seq<Seq<char>>, r2: Seq<Seq<char>>, i: int)
    requires
        appareils_choisis(s, r1),
        appareils_choisis(s, r2),
        0 <= i < r1.len(),
        r1.len() == r2.len(),
        r1[i] != r2[i],
        forall|q: int| 0 <= q < i ==> r1[q] == r2[q],
    ensures
        devance(s, r1[i], r2[i]),
{
    let d = distincts(s);
    assert(d.contains(r2[i]));
    if r1.contains(r2[i]) {
        let j = choose|j: int| 0 <= j < r1.len() && r1[j] == r2[i];
        if j < i {
            assert(r2[j] == r2[i]);
            assert(devance(s, r2[j], r2[i]));
            lemme_devance_strict(s, r2[i], r2[i]);
        } else {
            assert(devance(s, r1[i], r1[j]));
        }
    }
}

/// The cameras the page names are settled by the photographs alone: two
/// choices that both name the most used first, ties in character order, at
/// most three, are the same choice.
pub proof fn loi_un_seul_choix_d_appareils(s: Seq<Seq<char>>, r1: Seq<Seq<char>>, r2: Seq<Seq<char>>)
    requires
        appareils_choisis(s, r1),
        appareils_choisis(s, r2),
    ensures
        r1 == r2,
{
    lemme_meme_debut(s, r1, r2, r1.len() as int);
    assert(r1 =~= r2);
}

// Counting lemmas.

pub proof fn lemme_compte_borne(s: Seq<Seq<char>>, m: Seq<char>)
    ensures
        compte(s, m) <= s.len(),
        !s.contains(m) ==> compte(s, m) == 0,
    decreases s.len(),
{
    if s.len() > 0 {
        lemme_compte_borne(s.drop_last(), m);
        if !s.contains(m) {
            assert forall|k: int| 0 <= k < s.drop_last().len() implies s.drop_last()[k] != m by {
                assert(s.drop_last()[k] == s[k]);
            }
            assert(s[s.len() - 1] == s.last());
        }
    }
}

pub proof fn lemme_distincts(s: Seq<Seq<char>>)
    ensures
        forall|i: int, j: int| 0 <= i < j < distincts(s).len() ==> distincts(s)[i] != distincts(s)[j],
        forall|m: Seq<char>| distincts(s).contains(m) <==> s.contains(m),
        distincts(s).len() <= s.len(),
    decreases s.len(),
{
    if s.len() > 0 {
        let t = s.drop_last();
        lemme_distincts(t);
        let d = distincts(t);
        assert forall|m: Seq<char>| distincts(s).contains(m) <==> s.contains(m) by {
            if s.contains(m) {
                let k = choose|k: int| 0 <= k < s.len() && s[k] == m;
                if k < s.len() - 1 {
                    assert(t[k] == m);
                    assert(t.contains(m));
                }
            }
            if t.contains(m) {
                let k = choose|k: int| 0 <= k < t.len() && t[k] == m;
                assert(s[k] == m);
            }
            if d.push(s.last()).contains(m) && !d.contains(m) {
                assert(m == s.last());
                assert(s[s.len() - 1] == m);
            }
            if d.contains(m) {
                let k = choose|k: int| 0 <= k < d.len() && d[k] == m;
                if !d.contains(s.last()) {
                    assert(d.push(s.last())[k] == m);
                }
            }
            if m == s.last() && !d.contains(s.last()) {
                assert(d.push(s.last())[d.len() as int] == m);
            }
        }
    }
}

// Executable pieces.

/// Whether `a` comes before `b` in character order.
fn avant_lex_de(a: &[char], b: &[char]) -> (r: bool)
    ensures
        r == avant_lex(a@, b@),
{
    let mut i: usize = 0;
    assert(a@.skip(0) =~= a@);
    assert(b@.skip(0) =~= b@);
    while i < a.len() && i < b.len() && a[i] == b[i]
        invariant
            i <= a@.len(),
            i <= b@.len(),
            avant_lex(a@, b@) == avant_lex(a@.skip(i as int), b@.skip(i as int)),
        decreases a.len() - i,
    {
        assert(a@.skip(i as int).drop_first() =~= a@.skip(i as int + 1));
        assert(b@.skip(i as int).drop_first() =~= b@.skip(i as int + 1));
        i = i + 1;
    }
    if i == a.len() {
        i < b.len()
    } else if i == b.len() {
        false
    } else {
        (a[i] as u32) < (b[i] as u32)
    }
}

/// Whether `v` holds `x`.
fn parmi(v: &Vec<Vec<char>>, x: &Vec<char>) -> (r: Option<usize>)
    ensures
        match r {
            Some(k) => k < v@.len() && v@[k as int]@ == x@,
            None => !vues_car(v@).contains(x@),
        },
{
    let mut k: usize = 0;
    while k < v.len()
        invariant
            k <= v@.len(),
            forall|j: int| 0 <= j < k ==> v@[j]@ != x@,
        decreases v.len() - k,
    {
        if crate::chaines::egales(v[k].as_slice(), x.as_slice()) {
            return Some(k);
        }
        k = k + 1;
    }
    proof {
        if vues_car(v@).contains(x@) {
            let j = choose|j: int| 0 <= j < vues_car(v@).len() && vues_car(v@)[j] == x@;
            assert(v@[j]@ == x@);
        }
    }
    None
}

/// Every trusted date of every chapter, in reading order.
fn tous_les_jours(cs: &[Chapitre]) -> (r: Vec<Date>)
    ensures
        r@ == jours_des(cs@),
{
    let mut r: Vec<Date> = Vec::new();
    let mut i: usize = 0;
    assert(cs@.take(0) =~= Seq::<Chapitre>::empty());
    while i < cs.len()
        invariant
            i <= cs@.len(),
            r@ == jours_des(cs@.take(i as int)),
        decreases cs.len() - i,
    {
        let jours = &cs[i].jours;
        let mut j: usize = 0;
        while j < jours.len()
            invariant
                i < cs@.len(),
                *jours == cs@[i as int].jours,
                j <= jours@.len(),
                r@ == jours_des(cs@.take(i as int)) + jours@.take(j as int),
            decreases jours.len() - j,
        {
            r.push(jours[j]);
            j = j + 1;
            assert(r@ =~= jours_des(cs@.take(i as int)) + jours@.take(j as int));
        }
        proof {
            assert(cs@.take(i as int + 1).drop_last() =~= cs@.take(i as int));
            assert(cs@.take(i as int + 1).last() == cs@[i as int]);
            assert(jours@.take(j as int) =~= jours@);
        }
        i = i + 1;
    }
    assert(cs@.take(i as int) =~= cs@);
    r
}

/// The towns the chapters name, each once, in reading order.
fn lieux_distincts(cs: &[Chapitre]) -> (r: Vec<Vec<char>>)
    ensures
        vues_car(r@) == distincts(lieux_nommes(cs@)),
{
    let mut r: Vec<Vec<char>> = Vec::new();
    let mut i: usize = 0;
    assert(cs@.take(0) =~= Seq::<Chapitre>::empty());
    assert(vues_car(r@) =~= Seq::<Seq<char>>::empty());
    while i < cs.len()
        invariant
            i <= cs@.len(),
            vues_car(r@) == distincts(lieux_nommes(cs@.take(i as int))),
        decreases cs.len() - i,
    {
        proof {
            assert(cs@.take(i as int + 1).drop_last() =~= cs@.take(i as int));
            assert(cs@.take(i as int + 1).last() == cs@[i as int]);
        }
        match &cs[i].lieu {
            Some(l) => {
                let x = caracteres(l.as_str());
                let ghost t = lieux_nommes(cs@.take(i as int));
                assert(lieux_nommes(cs@.take(i as int + 1)) == t.push(l@));
                assert(t.push(l@).drop_last() =~= t);
                match parmi(&r, &x) {
                    Some(k) => {
                        assert(vues_car(r@)[k as int] == l@);
                        assert(distincts(t).contains(l@));
                    },
                    None => {
                        let ghost avant_r = vues_car(r@);
                        r.push(x);
                        assert(vues_car(r@) =~= avant_r.push(l@));
                    },
                }
            },
            None => {},
        }
        i = i + 1;
    }
    assert(cs@.take(i as int) =~= cs@);
    r
}

/// The models every photograph names, trimmed, in reading order.
fn modeles_lus(cs: &[Chapitre]) -> (r: Vec<Vec<char>>)
    ensures
        vues_car(r@) == modeles_des(cs@),
{
    let mut r: Vec<Vec<char>> = Vec::new();
    let mut i: usize = 0;
    assert(cs@.take(0) =~= Seq::<Chapitre>::empty());
    assert(vues_car(r@) =~= Seq::<Seq<char>>::empty());
    while i < cs.len()
        invariant
            i <= cs@.len(),
            vues_car(r@) == modeles_des(cs@.take(i as int)),
        decreases cs.len() - i,
    {
        let ms = &cs[i].modeles;
        let ghost avant = modeles_des(cs@.take(i as int));
        let mut j: usize = 0;
        assert(ms@.take(0) =~= Seq::<Option<String>>::empty());
        assert(avant + modeles_nommes(ms@.take(0)) =~= avant);
        while j < ms.len()
            invariant
                i < cs@.len(),
                *ms == cs@[i as int].modeles,
                j <= ms@.len(),
                avant == modeles_des(cs@.take(i as int)),
                vues_car(r@) == avant + modeles_nommes(ms@.take(j as int)),
            decreases ms.len() - j,
        {
            let ghost t = ms@.take(j as int + 1);
            assert(t.drop_last() =~= ms@.take(j as int));
            assert(t.last() == ms@[j as int]);
            match &ms[j] {
                Some(s) => {
                    let m = crate::chaines::rogner(caracteres(s.as_str()).as_slice());
                    if m.len() > 0 {
                        let ghost avant_r = vues_car(r@);
                        let ghost mv = m@;
                        r.push(m);
                        assert(vues_car(r@) =~= avant_r.push(mv));
                        assert(avant_r.push(mv) =~= avant + modeles_nommes(ms@.take(j as int)).push(mv));
                    }
                },
                None => {},
            }
            j = j + 1;
        }
        proof {
            assert(cs@.take(i as int + 1).drop_last() =~= cs@.take(i as int));
            assert(cs@.take(i as int + 1).last() == cs@[i as int]);
            assert(ms@.take(j as int) =~= ms@);
        }
        i = i + 1;
    }
    assert(cs@.take(i as int) =~= cs@);
    r
}

/// Each model once, where it first appears, with how many photographs name it.
fn compter(s: &Vec<Vec<char>>) -> (r: (Vec<Vec<char>>, Vec<usize>))
    ensures
        vues_car(r.0@) == distincts(vues_car(s@)),
        r.1@.len() == r.0@.len(),
        forall|k: int| 0 <= k < r.1@.len() ==> r.1@[k] == compte(vues_car(s@), #[trigger] r.0@[k]@),
{
    let ghost sv = vues_car(s@);
    let mut noms: Vec<Vec<char>> = Vec::new();
    let mut comptes: Vec<usize> = Vec::new();
    let mut i: usize = 0;
    assert(sv.take(0) =~= Seq::<Seq<char>>::empty());
    assert(vues_car(noms@) =~= Seq::<Seq<char>>::empty());
    while i < s.len()
        invariant
            sv == vues_car(s@),
            i <= s@.len(),
            vues_car(noms@) == distincts(sv.take(i as int)),
            comptes@.len() == noms@.len(),
            forall|k: int| 0 <= k < comptes@.len() ==> comptes@[k] == compte(sv.take(i as int), #[trigger] noms@[k]@),
        decreases s.len() - i,
    {
        let ghost t = sv.take(i as int);
        let ghost u = sv.take(i as int + 1);
        proof {
            assert(u.drop_last() =~= t);
            assert(u.last() == s@[i as int]@);
            lemme_distincts(t);
            assert forall|k: int| 0 <= k < noms@.len() implies compte(t, #[trigger] noms@[k]@) <= i by {
                lemme_compte_borne(t, noms@[k]@);
            }
        }
        let x = crate::chaines::copie(s[i].as_slice());
        match parmi(&noms, &x) {
            Some(k) => {
                proof {
                    assert(vues_car(noms@)[k as int] == x@);
                    assert(distincts(t).contains(x@));
                }
                let n = comptes[k];
                comptes.set(k, n + 1);
                proof {
                    assert forall|q: int| 0 <= q < comptes@.len() implies comptes@[q] == compte(u, #[trigger] noms@[q]@) by {
                        if q != k {
                            assert(vues_car(noms@)[q] != vues_car(noms@)[k as int]);
                        }
                    }
                }
            },
            None => {
                proof {
                    lemme_compte_borne(t, x@);
                }
                noms.push(x);
                comptes.push(1);
                proof {
                    assert(vues_car(noms@) =~= distincts(t).push(x@));
                    assert forall|q: int| 0 <= q < comptes@.len() implies comptes@[q] == compte(u, #[trigger] noms@[q]@) by {
                        if q < comptes@.len() - 1 {
                            assert(vues_car(noms@)[q] == distincts(t)[q]);
                            assert(distincts(t).contains(noms@[q]@));
                        }
                    }
                }
            },
        }
        i = i + 1;
    }
    assert(sv.take(i as int) =~= sv);
    (noms, comptes)
}

/// The cameras to name: the most used first, ties in character order, at
/// most three, picked one by one from what is left.
fn choisir(noms: Vec<Vec<char>>, comptes: Vec<usize>, Ghost(s): Ghost<Seq<Seq<char>>>) -> (r: Vec<Vec<char>>)
    requires
        vues_car(noms@) == distincts(s),
        comptes@.len() == noms@.len(),
        forall|k: int| 0 <= k < comptes@.len() ==> comptes@[k] == compte(s, #[trigger] noms@[k]@),
    ensures
        appareils_choisis(s, vues_car(r@)),
{
    let ghost d = distincts(s);
    proof {
        lemme_distincts(s);
    }
    let mut reste = noms;
    let mut rc = comptes;
    let mut r: Vec<Vec<char>> = Vec::new();
    assert(vues_car(r@) =~= Seq::<Seq<char>>::empty());
    proof {
        assert forall|i: int, j: int| 0 <= i < j < reste@.len() implies reste@[i]@ != reste@[j]@ by {
            assert(vues_car(reste@)[i] == reste@[i]@);
            assert(vues_car(reste@)[j] == reste@[j]@);
        }
        assert forall|k: int| 0 <= k < reste@.len() implies d.contains(#[trigger] reste@[k]@) by {
            assert(vues_car(reste@)[k] == reste@[k]@);
        }
    }
    while r.len() < 3 && reste.len() > 0
        invariant
            rc@.len() == reste@.len(),
            forall|k: int| 0 <= k < rc@.len() ==> rc@[k] == compte(s, #[trigger] reste@[k]@),
            forall|i: int, j: int| 0 <= i < j < reste@.len() ==> reste@[i]@ != reste@[j]@,
            r@.len() + reste@.len() == d.len(),
            r@.len() <= 3,
            forall|k: int| 0 <= k < reste@.len() ==> d.contains(#[trigger] reste@[k]@),
            forall|i: int| 0 <= i < r@.len() ==> d.contains(#[trigger] vues_car(r@)[i]),
            forall|m: Seq<char>| d.contains(m) ==> vues_car(r@).contains(m) || vues_car(reste@).contains(m),
            forall|i: int, j: int| 0 <= i < j < r@.len() ==> devance(s, #[trigger] vues_car(r@)[i], #[trigger] vues_car(r@)[j]),
            forall|i: int, k: int| 0 <= i < r@.len() && 0 <= k < reste@.len() ==> devance(s, #[trigger] vues_car(r@)[i], #[trigger] reste@[k]@),
        decreases reste.len(),
    {
        let mut b: usize = 0;
        let mut k: usize = 1;
        while k < reste.len()
            invariant
                rc@.len() == reste@.len(),
                forall|q: int| 0 <= q < rc@.len() ==> rc@[q] == compte(s, #[trigger] reste@[q]@),
                forall|i: int, j: int| 0 <= i < j < reste@.len() ==> reste@[i]@ != reste@[j]@,
                b < k <= reste@.len(),
                forall|q: int| 0 <= q < k && q != b ==> devance(s, reste@[b as int]@, #[trigger] reste@[q]@),
            decreases reste.len() - k,
        {
            let plus = rc[k] > rc[b] || (rc[k] == rc[b] && avant_lex_de(reste[k].as_slice(), reste[b].as_slice()));
            if plus {
                proof {
                    assert forall|q: int| 0 <= q < k + 1 && q != k implies devance(s, reste@[k as int]@, #[trigger] reste@[q]@) by {
                        if q != b {
                            lemme_devance_transitif(s, reste@[k as int]@, reste@[b as int]@, reste@[q]@);
                        }
                    }
                }
                b = k;
            } else {
                proof {
                    lemme_devance_total(s, reste@[k as int]@, reste@[b as int]@);
                }
            }
            k = k + 1;
        }
        let ghost avant = reste@;
        let ghost r_avant = vues_car(r@);
        let e = reste.remove(b);
        let _ = rc.remove(b);
        r.push(e);
        proof {
            assert forall|q: int| 0 <= q < reste@.len() implies reste@[q] == (if q < b { avant[q] } else { avant[q + 1] }) by {}
            assert(vues_car(r@) =~= r_avant.push(e@));
            assert forall|m: Seq<char>| d.contains(m) implies vues_car(r@).contains(m) || vues_car(reste@).contains(m) by {
                if r_avant.contains(m) {
                    let i = choose|i: int| 0 <= i < r_avant.len() && r_avant[i] == m;
                    assert(vues_car(r@)[i] == m);
                } else {
                    assert(vues_car(avant).contains(m));
                    let q = choose|q: int| 0 <= q < vues_car(avant).len() && vues_car(avant)[q] == m;
                    if q == b {
                        assert(vues_car(r@)[r_avant.len() as int] == m);
                    } else if q < b {
                        assert(vues_car(reste@)[q] == m);
                    } else {
                        assert(vues_car(reste@)[q - 1] == m);
                    }
                }
            }
            assert forall|i: int, j: int| 0 <= i < j < r@.len() implies devance(s, #[trigger] vues_car(r@)[i], #[trigger] vues_car(r@)[j]) by {
                if j == r@.len() - 1 {
                    assert(avant[b as int]@ == e@);
                }
            }
            assert forall|i: int, q: int| 0 <= i < r@.len() && 0 <= q < reste@.len() implies devance(s, #[trigger] vues_car(r@)[i], #[trigger] reste@[q]@) by {
                let q0 = if q < b { q } else { q + 1 };
                assert(reste@[q] == avant[q0]);
                if i == r@.len() - 1 {
                    assert(vues_car(r@)[i] == e@);
                } else {
                    assert(vues_car(r@)[i] == r_avant[i]);
                }
            }
        }
    }
    proof {
        let rv = vues_car(r@);
        assert forall|m: Seq<char>, i: int| 0 <= i < rv.len() && d.contains(m) && !rv.contains(m) implies devance(s, rv[i], m) by {
            let q = choose|q: int| 0 <= q < vues_car(reste@).len() && vues_car(reste@)[q] == m;
            assert(reste@[q]@ == m);
        }
    }
    r
}

/// Gather the facts of a finished composition: the span of the trusted
/// dates, the towns in reading order (at most six), the cameras the most
/// used first (at most three). A phone that took four hundred photographs
/// and a borrowed camera that took two are not equally worth naming.
pub fn faits(chapitres: &[Chapitre], photos_retenues: usize, photos_scannees: usize, aujourdhui: Date) -> (f: Faits)
    ensures
        f.photos_retenues == photos_retenues,
        f.photos_scannees == photos_scannees,
        f.compose_le == aujourdhui,
        jours_des(chapitres@).len() == 0 ==> f.debut is None && f.fin is None,
        jours_des(chapitres@).len() > 0 ==> f.debut == Some(bornes_de(jours_des(chapitres@)).0)
            && f.fin == Some(bornes_de(jours_des(chapitres@)).1),
        vues_liste(f.lieux@) == premiers(distincts(lieux_nommes(chapitres@)), 6),
        appareils_choisis(modeles_des(chapitres@), vues_liste(f.appareils@)),
{
    let jours = tous_les_jours(chapitres);
    let (debut, fin) = match bornes(jours.as_slice()) {
        Some((lo, hi)) => (Some(lo), Some(hi)),
        None => (None, None),
    };
    let lieux = lieux_distincts(chapitres);
    let mut noms_lieux: Vec<String> = Vec::new();
    let mut i: usize = 0;
    let n = if lieux.len() < 6 { lieux.len() } else { 6 };
    while i < n
        invariant
            n <= lieux@.len(),
            n == if lieux@.len() < 6 { lieux@.len() } else { 6 },
            i <= n,
            vues_liste(noms_lieux@) == vues_car(lieux@).take(i as int),
        decreases n - i,
    {
        let ghost avant = vues_liste(noms_lieux@);
        noms_lieux.push(chaine(lieux[i].as_slice()));
        assert(vues_liste(noms_lieux@) =~= avant.push(lieux@[i as int]@));
        i = i + 1;
        assert(vues_liste(noms_lieux@) =~= vues_car(lieux@).take(i as int));
    }
    assert(vues_liste(noms_lieux@) =~= premiers(vues_car(lieux@), 6));
    let modeles = modeles_lus(chapitres);
    let (noms, comptes) = compter(&modeles);
    let choisis = choisir(noms, comptes, Ghost(vues_car(modeles@)));
    let mut appareils: Vec<String> = Vec::new();
    let mut j: usize = 0;
    while j < choisis.len()
        invariant
            j <= choisis@.len(),
            vues_liste(appareils@) == vues_car(choisis@).take(j as int),
        decreases choisis.len() - j,
    {
        let ghost avant = vues_liste(appareils@);
        appareils.push(chaine(choisis[j].as_slice()));
        assert(vues_liste(appareils@) =~= avant.push(choisis@[j as int]@));
        j = j + 1;
        assert(vues_liste(appareils@) =~= vues_car(choisis@).take(j as int));
    }
    assert(vues_liste(appareils@) =~= vues_car(choisis@));
    Faits {
        photos_retenues,
        photos_scannees,
        debut,
        fin,
        lieux: noms_lieux,
        appareils,
        compose_le: aujourdhui,
    }
}

} // verus!
