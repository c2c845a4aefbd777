//! The proposed spread caption: what the machine may say about a spread
//! whose caption is empty, and nothing else. Never invent, never impose,
//! stay silent in doubt: the proposal only speaks when it adds to what the
//! chapter line already says. Reading the photographs' positions and dates,
//! and naming a town from a position, is done before this is asked.

use vstd::prelude::*;
use crate::chaines::{caracteres, chaine, concat, egales, tranche};
use crate::construction::{Date, date_valide, date_texte, date_en_texte_pub};

verus! {

/// `m` occurs somewhere in `s` (`str::contains`); the empty text occurs
/// everywhere.
pub open spec fn contient_texte(s: Seq<char>, m: Seq<char>) -> bool {
    exists|i: int| #[trigger] occurrence_en(s, m, i)
}

/// `m` occurs in `s` at `i`.
pub open spec fn occurrence_en(s: Seq<char>, m: Seq<char>, i: int) -> bool {
    0 <= i && i + m.len() <= s.len() && s.subrange(i, i + m.len()) == m
}

fn contient(s: &Vec<char>, m: &Vec<char>) -> (b: bool)
    ensures
        b == contient_texte(s@, m@),
{
    if m.len() > s.len() {
        return false;
    }
    let mut i: usize = 0;
    while i <= s.len() - m.len()
        invariant
            m@.len() <= s@.len(),
            i <= s@.len() - m@.len() + 1,
            forall|k: int| 0 <= k < i ==> !occurrence_en(s@, m@, k),
        decreases s.len() - m.len() + 1 - i,
    {
        let morceau = tranche(s.as_slice(), i, i + m.len());
        proof {
            if m@.len() == 0 {
                assert(morceau@ =~= m@);
            }
        }
        if egales(morceau.as_slice(), m.as_slice()) {
            assert(occurrence_en(s@, m@, i as int));
            return true;
        }
        i = i + 1;
    }
    false
}

/// The wording rule. The town is printed when the spread's photos agree on
/// one that is neither the chapter's own nor already written in its title;
/// the day when the spread has exactly one and the chapter spans several.
pub open spec fn legende_de(
    place_planche: Option<Seq<char>>,
    place_chapitre: Option<Seq<char>>,
    titre_chapitre: Seq<char>,
    jour_planche: Option<Date>,
    jours_chapitre: Option<(Date, Date)>,
) -> Option<Seq<char>> {
    let place = match place_planche {
        Some(p) => if place_chapitre != Some(p) && !contient_texte(titre_chapitre, p) { Some(p) } else { None },
        None => None,
    };
    let jour = match (jour_planche, jours_chapitre) {
        (Some(d), Some((lo, hi))) => if lo != hi { Some(d) } else { None },
        _ => None,
    };
    match (place, jour) {
        (Some(p), Some(d)) => Some(p + ", "@ + date_texte(d, true)),
        (Some(p), None) => Some(p),
        (None, Some(d)) => Some(date_texte(d, true)),
        (None, None) => None,
    }
}

/// The caption proposed for a spread, from what its photos and its
/// chapter's say, or nothing: silence is a full answer.
pub fn texte(
    place_planche: Option<&str>,
    place_chapitre: Option<&str>,
    titre_chapitre: &str,
    jour_planche: Option<Date>,
    jours_chapitre: Option<(Date, Date)>,
) -> (r: Option<String>)
    requires
        jour_planche matches Some(d) ==> date_valide(d),
    ensures
        match legende_de(
            match place_planche { Some(p) => Some(p@), None => None },
            match place_chapitre { Some(p) => Some(p@), None => None },
            titre_chapitre@,
            jour_planche,
            jours_chapitre,
        ) {
            None => r is None,
            Some(t) => r matches Some(s) && s@ == t,
        },
{
    let titre = caracteres(titre_chapitre);
    let place: Option<Vec<char>> = match place_planche {
        Some(p) => {
            let pv = caracteres(p);
            let meme = match place_chapitre {
                Some(c) => egales(caracteres(c).as_slice(), pv.as_slice()),
                None => false,
            };
            if !meme && !contient(&titre, &pv) { Some(pv) } else { None }
        },
        None => None,
    };
    let jour: Option<Date> = match (jour_planche, jours_chapitre) {
        (Some(d), Some((lo, hi))) => if lo != hi { Some(d) } else { None },
        _ => None,
    };
    match (place, jour) {
        (Some(p), Some(d)) => {
            let a = concat(p.as_slice(), caracteres(", ").as_slice());
            Some(chaine(concat(a.as_slice(), date_en_texte_pub(d, true).as_slice()).as_slice()))
        },
        (Some(p), None) => Some(chaine(p.as_slice())),
        (None, Some(d)) => Some(chaine(date_en_texte_pub(d, true).as_slice())),
        (None, None) => None,
    }
}

/// The day every trusted date of a spread agrees on, if they agree. A
/// spread shot across midnight has no single day.
pub open spec fn jour_unique_de(jours: Seq<Date>) -> Option<Date> {
    if jours.len() > 0 && forall|i: int| 0 <= i < jours.len() ==> #[trigger] jours[i] == jours[0] {
        Some(jours[0])
    } else {
        None
    }
}

/// The day every trusted date of a spread agrees on.
pub fn jour_unique(jours: &[Date]) -> (r: Option<Date>)
    ensures
        r == jour_unique_de(jours@),
{
    if jours.len() == 0 {
        return None;
    }
    let first = jours[0];
    let mut i: usize = 1;
    while i < jours.len()
        invariant
            1 <= i <= jours@.len(),
            first == jours@[0],
            forall|k: int| 0 <= k < i ==> jours@[k] == first,
        decreases jours.len() - i,
    {
        if jours[i] != first {
            return None;
        }
        i = i + 1;
    }
    Some(first)
}

/// Neither separator of a path.
pub open spec fn sans_separateur(s: Seq<char>) -> bool {
    forall|k: int| 0 <= k < s.len() ==> s[k] != '/' && s[k] != '\\'
}

pub proof fn lemme_concat_sans_separateur(a: Seq<char>, b: Seq<char>)
    requires
        sans_separateur(a),
        sans_separateur(b),
    ensures
        sans_separateur(a + b),
{
    assert forall|k: int| 0 <= k < (a + b).len() implies (a + b)[k] != '/' && (a + b)[k] != '\\' by {
        if k < a.len() {
            assert((a + b)[k] == a[k]);
        } else {
            assert((a + b)[k] == b[k - a.len()]);
        }
    }
}

pub proof fn lemme_decimal_sans_separateur(n: nat)
    ensures
        sans_separateur(crate::chaines::decimal(n)),
{
    crate::chaines::lemme_decimal(n);
    let d = crate::chaines::decimal(n);
    assert forall|k: int| 0 <= k < d.len() implies d[k] != '/' && d[k] != '\\' by {
        assert(crate::chaines::est_chiffre(d[k]));
    }
}

pub proof fn lemme_mois_sans_separateur(m: u32)
    ensures
        sans_separateur(crate::construction::mois_fr(m)),
{
    reveal_strlit("janvier");
    reveal_strlit("février");
    reveal_strlit("mars");
    reveal_strlit("avril");
    reveal_strlit("mai");
    reveal_strlit("juin");
    reveal_strlit("juillet");
    reveal_strlit("août");
    reveal_strlit("septembre");
    reveal_strlit("octobre");
    reveal_strlit("novembre");
    reveal_strlit("décembre");
}

pub proof fn lemme_date_sans_separateur(d: Date, avec_annee: bool)
    ensures
        sans_separateur(date_texte(d, avec_annee)),
{
    lemme_decimal_sans_separateur(d.jour as nat);
    lemme_mois_sans_separateur(d.mois);
    assert(sans_separateur(seq![' ']));
    lemme_concat_sans_separateur(crate::chaines::decimal(d.jour as nat), seq![' ']);
    lemme_concat_sans_separateur(crate::chaines::decimal(d.jour as nat) + seq![' '], crate::construction::mois_fr(d.mois));
    if avec_annee {
        let base = crate::chaines::decimal(d.jour as nat) + seq![' '] + crate::construction::mois_fr(d.mois);
        lemme_concat_sans_separateur(base, seq![' ']);
        let y = crate::construction::annee_texte(d.annee);
        if d.annee < 0 {
            lemme_decimal_sans_separateur((-d.annee) as nat);
            assert(sans_separateur(seq!['-']));
            lemme_concat_sans_separateur(seq!['-'], crate::chaines::decimal((-d.annee) as nat));
        } else {
            lemme_decimal_sans_separateur(d.annee as nat);
        }
        lemme_concat_sans_separateur(base + seq![' '], y);
    }
}

/// Never a path: a proposal is made of a town's name as the gazetteer gives
/// it and a French date, so it holds no path separator unless the town's
/// name does.
pub proof fn loi_jamais_un_chemin(
    place_planche: Option<Seq<char>>,
    place_chapitre: Option<Seq<char>>,
    titre: Seq<char>,
    jour_planche: Option<Date>,
    jours_chapitre: Option<(Date, Date)>,
)
    requires
        place_planche matches Some(p) ==> sans_separateur(p),
        legende_de(place_planche, place_chapitre, titre, jour_planche, jours_chapitre) is Some,
    ensures
        sans_separateur(legende_de(place_planche, place_chapitre, titre, jour_planche, jours_chapitre).unwrap()),
{
    if let Some(d) = jour_planche {
        lemme_date_sans_separateur(d, true);
    }
    if let Some(d) = jour_planche {
        let t = date_texte(d, true);
        if let Some(p) = place_planche {
            let l = p + ", "@ + t;
            assert(l.subrange(l.len() - t.len(), l.len() as int) =~= t);
        }
        assert(t.subrange(0, t.len() as int) =~= t);
    }
    if let Some(p) = place_planche {
        if let Some(d) = jour_planche {
            assert(sans_separateur(", "@)) by {
                reveal_strlit(", ");
            }
            lemme_concat_sans_separateur(p, ", "@);
            lemme_concat_sans_separateur(p + ", "@, date_texte(d, true));
        }
    }
}

/// The chapter a spread belongs to, as the reader sees it: `[debut, fin)`,
/// from the last captioned spread before it (the book's first spread when
/// none is) up to the next captioned spread after it (the book's end when
/// none is). Spreads before any caption form a chapter with an empty title.
pub fn chapitre_de(legendes: &[bool], planche: usize) -> (r: (usize, usize))
    requires
        planche < legendes@.len(),
    ensures
        r.0 <= planche < r.1 <= legendes@.len(),
        (r.0 < planche && legendes@[r.0 as int]) || (r.0 == 0 && forall|j: int| 0 <= j < planche ==> !legendes@[j]),
        forall|j: int| r.0 < j < planche ==> !legendes@[j],
        r.1 < legendes@.len() ==> legendes@[r.1 as int],
        forall|j: int| planche < j < r.1 ==> !legendes@[j],
{
    let n = legendes.len();
    let mut debut: usize = planche;
    while debut > 0 && !legendes[debut - 1]
        invariant
            debut <= planche < legendes@.len(),
            forall|j: int| debut <= j < planche ==> !legendes@[j],
        decreases debut,
    {
        debut = debut - 1;
    }
    let debut = if debut > 0 { debut - 1 } else { 0 };
    let mut fin: usize = planche + 1;
    while fin < n && !legendes[fin]
        invariant
            n == legendes@.len(),
            planche < fin <= legendes@.len(),
            forall|j: int| planche < j < fin ==> !legendes@[j],
        decreases n - fin,
    {
        fin = fin + 1;
    }
    (debut, fin)
}


/// A spread's town is written when it is neither the chapter's town nor
/// already in the chapter's title (a chapter agreeing on no town silences
/// none), and the caption then opens on it; a spread with no town of its
/// own, on a chapter of a single day or of unknown days, gets no caption.
pub proof fn loi_la_ville_d_une_planche_se_dit(
    place_planche: Option<Seq<char>>,
    place_chapitre: Option<Seq<char>>,
    titre_chapitre: Seq<char>,
    jour_planche: Option<Date>,
    jours_chapitre: Option<(Date, Date)>,
)
    ensures
        place_planche matches Some(p) ==> place_chapitre != Some(p) && !contient_texte(titre_chapitre, p) ==> (
        legende_de(place_planche, place_chapitre, titre_chapitre, jour_planche, jours_chapitre) matches Some(l)
            && l.len() >= p.len() && l.subrange(0, p.len() as int) == p),
        place_planche is None && (jours_chapitre is None || jour_planche is None || (jours_chapitre->0).0
            == (jours_chapitre->0).1) ==> legende_de(place_planche, place_chapitre, titre_chapitre, jour_planche, jours_chapitre)
            is None,
        jour_planche matches Some(d) ==> jours_chapitre matches Some(j) ==> j.0 != j.1 ==> (legende_de(
            place_planche,
            place_chapitre,
            titre_chapitre,
            jour_planche,
            jours_chapitre,
        ) matches Some(l) && l.len() >= date_texte(d, true).len() && l.subrange(
            l.len() - date_texte(d, true).len(),
            l.len() as int,
        ) == date_texte(d, true)),
{
    if let Some(p) = place_planche {
        if place_chapitre != Some(p) && !contient_texte(titre_chapitre, p) {
            match jour_planche {
                Some(d) => {
                    let l = p + ", "@ + date_texte(d, true);
                    assert(l.subrange(0, p.len() as int) =~= p);
                },
                None => {
                    assert(p.subrange(0, p.len() as int) =~= p);
                },
            }
            if !(jours_chapitre matches Some(j) && j.0 != j.1) || jour_planche is None {
                assert(p.subrange(0, p.len() as int) =~= p);
            } else {
                let d = jour_planche->0;
                let l = p + ", "@ + date_texte(d, true);
                assert(l.subrange(0, p.len() as int) =~= p);
            }
        }
    }
}

} // verus!
