//! The pure pieces of building an album: dates written the French way, the
//! span of a chapter, a JPEG's size read from its frame header, and the two
//! proposals shown beside the one the creation screen asked for. Reading
//! folders, decoding photographs and writing files is the application's.

use vstd::prelude::*;
use crate::chaines::{caracteres, chaine, concat, en_decimal, decimal};
use crate::layout::{Densite, nom_de, about_de};

verus! {

/// A calendar date, as a capture time or a composition day gives it.
#[derive(Debug, Clone, Copy, PartialEq, Eq, Structural)]
pub struct Date {
    pub annee: i32,
    /// 1 to 12.
    pub mois: u32,
    pub jour: u32,
}

/// A date a calendar can hold: a month between 1 and 12.
pub open spec fn date_valide(d: Date) -> bool {
    1 <= d.mois <= 12
}

/// `a` comes no later than `b`.
pub open spec fn pas_apres(a: Date, b: Date) -> bool {
    a.annee < b.annee || (a.annee == b.annee && (a.mois < b.mois || (a.mois == b.mois && a.jour <= b.jour)))
}

pub open spec fn plus_tot(a: Date, b: Date) -> Date {
    if pas_apres(a, b) { a } else { b }
}

pub open spec fn plus_tard(a: Date, b: Date) -> Date {
    if pas_apres(a, b) { b } else { a }
}

fn pas_apres_de(a: Date, b: Date) -> (r: bool)
    ensures
        r == pas_apres(a, b),
{
    a.annee < b.annee || (a.annee == b.annee && (a.mois < b.mois || (a.mois == b.mois && a.jour <= b.jour)))
}

/// The French month names, in calendar order.
pub open spec fn mois_fr(m: u32) -> Seq<char> {
    if m == 1 { "janvier"@ }
    else if m == 2 { "février"@ }
    else if m == 3 { "mars"@ }
    else if m == 4 { "avril"@ }
    else if m == 5 { "mai"@ }
    else if m == 6 { "juin"@ }
    else if m == 7 { "juillet"@ }
    else if m == 8 { "août"@ }
    else if m == 9 { "septembre"@ }
    else if m == 10 { "octobre"@ }
    else if m == 11 { "novembre"@ }
    else { "décembre"@ }
}

/// A year as `{}` writes an `i32`.
pub open spec fn annee_texte(y: i32) -> Seq<char> {
    if y < 0 { seq!['-'] + decimal((-y) as nat) } else { decimal(y as nat) }
}

/// « 21 octobre 2013 », or « 21 octobre » without the year.
pub open spec fn date_texte(d: Date, avec_annee: bool) -> Seq<char> {
    let base = decimal(d.jour as nat) + seq![' '] + mois_fr(d.mois);
    if avec_annee { base + seq![' '] + annee_texte(d.annee) } else { base }
}

const MONTHS_FR: [&'static str; 12] = [
    "janvier", "février", "mars", "avril", "mai", "juin", "juillet", "août",
    "septembre", "octobre", "novembre", "décembre",
];

fn nom_du_mois(m: u32) -> (r: Vec<char>)
    requires
        1 <= m <= 12,
    ensures
        r@ == mois_fr(m),
{
    let t = MONTHS_FR;
    proof {
        assert(t@[0]@ == "janvier"@);
    }
    let r = caracteres(t[(m - 1) as usize]);
    proof {
        assert(t@ =~= seq!["janvier", "février", "mars", "avril", "mai", "juin", "juillet", "août",
            "septembre", "octobre", "novembre", "décembre"]);
    }
    r
}

fn annee_en_texte(y: i32) -> (r: Vec<char>)
    ensures
        r@ == annee_texte(y),
{
    if y < 0 {
        let n: u64 = (0i64 - (y as i64)) as u64;
        let d = en_decimal(n);
        let r = concat(&['-'], d.as_slice());
        assert(r@ =~= seq!['-'] + decimal((-y) as nat));
        r
    } else {
        en_decimal(y as u64)
    }
}

fn date_en_texte(d: Date, avec_annee: bool) -> (r: Vec<char>)
    requires
        date_valide(d),
    ensures
        r@ == date_texte(d, avec_annee),
{
    let jour = en_decimal(d.jour as u64);
    let a = concat(jour.as_slice(), &[' ']);
    let base = concat(a.as_slice(), nom_du_mois(d.mois).as_slice());
    if avec_annee {
        let b = concat(base.as_slice(), &[' ']);
        concat(b.as_slice(), annee_en_texte(d.annee).as_slice())
    } else {
        base
    }
}

/// The same, as characters.
pub(crate) fn date_en_texte_pub(d: Date, avec_annee: bool) -> (r: Vec<char>)
    requires
        date_valide(d),
    ensures
        r@ == date_texte(d, avec_annee),
{
    date_en_texte(d, avec_annee)
}

/// « 21 octobre 2013 », or « 21 octobre » without the year.
pub fn date_fr(d: Date, with_year: bool) -> (s: String)
    requires
        date_valide(d),
    ensures
        s@ == date_texte(d, with_year),
{
    chaine(date_en_texte(d, with_year).as_slice())
}

/// The earliest and latest of some dates.
pub open spec fn bornes_de(s: Seq<Date>) -> (Date, Date)
    decreases s.len(),
{
    if s.len() <= 1 {
        (s[0], s[0])
    } else {
        let (lo, hi) = bornes_de(s.drop_last());
        (plus_tot(lo, s.last()), plus_tard(hi, s.last()))
    }
}

/// The span of a chapter's trusted dates: one day, or « 27 octobre – 30 octobre
/// 2013 » from the first to the last. `None` without a trusted date.
pub open spec fn dates_texte(s: Seq<Date>) -> Option<Seq<char>> {
    if s.len() == 0 {
        None
    } else {
        let (lo, hi) = bornes_de(s);
        if lo == hi {
            Some(date_texte(lo, true))
        } else {
            Some(date_texte(lo, false) + " \u{2013} "@ + date_texte(hi, true))
        }
    }
}

pub proof fn lemme_bornes_parmi(s: Seq<Date>)
    requires
        s.len() >= 1,
    ensures
        s.contains(bornes_de(s).0),
        s.contains(bornes_de(s).1),
    decreases s.len(),
{
    if s.len() == 1 {
        assert(s[0] == bornes_de(s).0);
    } else {
        lemme_bornes_parmi(s.drop_last());
        let (lo, hi) = bornes_de(s.drop_last());
        let k1 = choose|k: int| 0 <= k < s.drop_last().len() && s.drop_last()[k] == lo;
        let k2 = choose|k: int| 0 <= k < s.drop_last().len() && s.drop_last()[k] == hi;
        assert(s[k1] == lo);
        assert(s[k2] == hi);
        assert(s[s.len() - 1] == s.last());
    }
}

/// The earliest and latest of some dates, in one pass.
pub fn bornes(jours: &[Date]) -> (r: Option<(Date, Date)>)
    ensures
        jours@.len() == 0 ==> r is None,
        jours@.len() > 0 ==> r == Some(bornes_de(jours@)),
{
    if jours.len() == 0 {
        return None;
    }
    let mut lo = jours[0];
    let mut hi = jours[0];
    let mut i: usize = 1;
    assert(jours@.subrange(0, 1).len() == 1);
    while i < jours.len()
        invariant
            1 <= i <= jours@.len(),
            (lo, hi) == bornes_de(jours@.subrange(0, i as int)),
        decreases jours.len() - i,
    {
        proof {
            let s = jours@.subrange(0, i as int + 1);
            assert(s.drop_last() =~= jours@.subrange(0, i as int));
        }
        let d = jours[i];
        if !pas_apres_de(lo, d) {
            lo = d;
        }
        if pas_apres_de(hi, d) {
            hi = d;
        }
        i = i + 1;
    }
    assert(jours@.subrange(0, i as int) =~= jours@);
    Some((lo, hi))
}

/// The dates of one chapter, read from its photos' trusted capture dates:
/// the day when they all fall on one, the span otherwise, nothing without
/// a trusted date.
pub fn chapter_dates(jours: &[Date]) -> (r: Option<String>)
    requires
        forall|i: int| 0 <= i < jours@.len() ==> date_valide(#[trigger] jours@[i]),
    ensures
        match dates_texte(jours@) {
            None => r is None,
            Some(t) => r matches Some(s) && s@ == t,
        },
{
    match bornes(jours) {
        None => None,
        Some((lo, hi)) => {
            proof {
                lemme_bornes_parmi(jours@);
            }
            if lo == hi {
                Some(date_fr(lo, true))
            } else {
                let a = date_en_texte(lo, false);
                let b = concat(a.as_slice(), caracteres(" \u{2013} ").as_slice());
                let c = concat(b.as_slice(), date_en_texte(hi, true).as_slice());
                Some(chaine(c.as_slice()))
            }
        },
    }
}

// --- A chapter's opening line ------------------------------------------------------

/// What the composition knows of one chapter once its photographs are read:
/// the town they agree on (the gazetteer's answer, when it has one), their
/// trusted capture dates, and the camera model each one's EXIF names.
#[derive(Debug, Clone)]
pub struct Chapitre {
    pub lieu: Option<String>,
    pub jours: Vec<Date>,
    pub modeles: Vec<Option<String>>,
}

/// A string that may be absent, as characters.
pub open spec fn vue_option(o: Option<String>) -> Option<Seq<char>> {
    match o {
        Some(s) => Some(s@),
        None => None,
    }
}

pub open spec fn vue_caracteres(o: Option<Vec<char>>) -> Option<Seq<char>> {
    match o {
        Some(v) => Some(v@),
        None => None,
    }
}

/// The last town any of these chapters named.
pub open spec fn dernier_lieu(cs: Seq<Chapitre>) -> Option<Seq<char>>
    decreases cs.len(),
{
    if cs.len() == 0 {
        None
    } else if cs.last().lieu is Some {
        vue_option(cs.last().lieu)
    } else {
        dernier_lieu(cs.drop_last())
    }
}

/// A chapter's opening line: « Calvi, 27 octobre – 30 octobre 2013 »; the town
/// alone without a trusted date; the dates alone without a town, or when
/// the town is the one the run of chapters is already in; nothing when
/// nothing is left to say.
pub open spec fn legende_de_chapitre(
    lieu: Option<Seq<char>>,
    dates: Option<Seq<char>>,
    precedent: Option<Seq<char>>,
) -> Option<Seq<char>> {
    match lieu {
        Some(n) => if precedent != lieu {
            match dates {
                Some(d) => Some(n + ", "@ + d),
                None => Some(n),
            }
        } else {
            dates
        },
        None => dates,
    }
}

/// The opening line of chapter `i` of a run.
pub open spec fn legende_du_rang(cs: Seq<Chapitre>, i: int) -> Option<Seq<char>> {
    legende_de_chapitre(vue_option(cs[i].lieu), dates_texte(cs[i].jours@), dernier_lieu(cs.take(i)))
}

/// Every date of every chapter is a calendar date.
pub open spec fn jours_valides(cs: Seq<Chapitre>) -> bool {
    forall|i: int, j: int|
        0 <= i < cs.len() && 0 <= j < cs[i].jours@.len() ==> date_valide(#[trigger] cs[i].jours@[j])
}

/// The opening lines of a run of chapters, worked out together: whether a
/// town is worth naming depends on the chapter before. A week in one town
/// is one place, not eight chapters repeating it, and a chapter that named
/// nowhere does not break the run.
pub fn chapter_captions(chapters: &[Chapitre]) -> (r: Vec<Option<String>>)
    requires
        jours_valides(chapters@),
    ensures
        r@.len() == chapters@.len(),
        forall|i: int| 0 <= i < r@.len() ==> vue_option(#[trigger] r@[i]) == legende_du_rang(chapters@, i),
{
    let mut out: Vec<Option<String>> = Vec::new();
    let mut precedent: Option<Vec<char>> = None;
    let virgule = caracteres(", ");
    proof {
        reveal_strlit(", ");
        assert(chapters@.take(0) =~= Seq::<Chapitre>::empty());
    }
    let mut i: usize = 0;
    while i < chapters.len()
        invariant
            i <= chapters@.len(),
            out@.len() == i,
            virgule@ == ", "@,
            jours_valides(chapters@),
            vue_caracteres(precedent) == dernier_lieu(chapters@.take(i as int)),
            forall|k: int| 0 <= k < i ==> vue_option(#[trigger] out@[k]) == legende_du_rang(chapters@, k),
        decreases chapters.len() - i,
    {
        let c = &chapters[i];
        let dates = chapter_dates(c.jours.as_slice());
        let lieu: Option<Vec<char>> = match &c.lieu {
            Some(s) => Some(caracteres(s.as_str())),
            None => None,
        };
        let meme = match (&lieu, &precedent) {
            (Some(n), Some(p)) => crate::chaines::egales(n.as_slice(), p.as_slice()),
            _ => false,
        };
        let legende: Option<String> = match &lieu {
            Some(n) => if !meme {
                match &dates {
                    Some(d) => {
                        let a = concat(n.as_slice(), virgule.as_slice());
                        let b = concat(a.as_slice(), caracteres(d.as_str()).as_slice());
                        Some(chaine(b.as_slice()))
                    },
                    None => Some(chaine(n.as_slice())),
                }
            } else {
                dates
            },
            None => dates,
        };
        out.push(legende);
        proof {
            assert(chapters@.take(i as int + 1).drop_last() =~= chapters@.take(i as int));
            assert(chapters@.take(i as int + 1).last() == chapters@[i as int]);
        }
        if lieu.is_some() {
            precedent = lieu;
        }
        i = i + 1;
    }
    out
}

/// The town the run is in: from a chapter that names a town, every later
/// chapter that names the same one or none at all still counts as there.
pub proof fn lemme_dernier_lieu_tenu(cs: Seq<Chapitre>, i: int, m: int)
    requires
        0 <= i < m <= cs.len(),
        cs[i].lieu is Some,
        forall|k: int| i < k < m ==> (#[trigger] cs[k].lieu) is None || vue_option(cs[k].lieu) == vue_option(cs[i].lieu),
    ensures
        dernier_lieu(cs.take(m)) == vue_option(cs[i].lieu),
    decreases m - i,
{
    assert(cs.take(m).drop_last() =~= cs.take(m - 1));
    assert(cs.take(m).last() == cs[m - 1]);
    if m > i + 1 {
        lemme_dernier_lieu_tenu(cs, i, m - 1);
    }
}

/// A town is named once per stay: a chapter in the town the run is already
/// in, with only chapters naming that town or none since it was named,
/// opens on its dates alone.
pub proof fn loi_une_ville_ne_se_repete_pas(cs: Seq<Chapitre>, i: int, j: int)
    requires
        0 <= i < j < cs.len(),
        cs[i].lieu is Some,
        vue_option(cs[j].lieu) == vue_option(cs[i].lieu),
        forall|k: int| i < k < j ==> (#[trigger] cs[k].lieu) is None || vue_option(cs[k].lieu) == vue_option(cs[i].lieu),
    ensures
        legende_du_rang(cs, j) == dates_texte(cs[j].jours@),
{
    lemme_dernier_lieu_tenu(cs, i, j);
}

/// A town is named when the run arrives in it: a chapter whose town differs
/// from the last one named opens on that town.
pub proof fn loi_une_ville_nouvelle_est_nommee(cs: Seq<Chapitre>, j: int)
    requires
        0 <= j < cs.len(),
        cs[j].lieu is Some,
        dernier_lieu(cs.take(j)) != vue_option(cs[j].lieu),
    ensures
        legende_du_rang(cs, j) matches Some(l) && l.len() >= cs[j].lieu.unwrap()@.len()
            && l.subrange(0, cs[j].lieu.unwrap()@.len() as int) == cs[j].lieu.unwrap()@,
{
    let n = cs[j].lieu.unwrap()@;
    match dates_texte(cs[j].jours@) {
        Some(d) => {
            assert((n + ", "@ + d).subrange(0, n.len() as int) =~= n);
        },
        None => {
            assert(n.subrange(0, n.len() as int) =~= n);
        },
    }
}

// --- JPEG frame headers -----------------------------------------------------------

/// A start-of-frame marker: `C0` to `CF`, but `C4` (Huffman tables), `C8`
/// (reserved) and `CC` (arithmetic coding).
pub open spec fn marqueur_de_trame(m: u8) -> bool {
    0xC0 <= m <= 0xCF && m != 0xC4 && m != 0xC8 && m != 0xCC
}

/// The size in the first frame header found walking the segments from `i`:
/// a stray byte is skipped, a segment is stepped over by its length.
pub open spec fn taille_jpeg_depuis(d: Seq<u8>, i: int) -> Option<(u32, u32)>
    decreases (if i > d.len() { 0 } else { d.len() + 1 - i }),
{
    if i < 0 || i + 9 >= d.len() {
        None
    } else if d[i] != 0xFF {
        taille_jpeg_depuis(d, i + 1)
    } else if marqueur_de_trame(d[i + 1]) {
        Some(((d[i + 7] as u32 * 256 + d[i + 8] as u32) as u32, (d[i + 5] as u32 * 256 + d[i + 6] as u32) as u32))
    } else {
        taille_jpeg_depuis(d, i + 2 + (d[i + 2] as int * 256 + d[i + 3] as int))
    }
}

/// A JPEG's width and height from its frame header, without decoding it.
pub fn jpeg_dimensions(data: &[u8]) -> (r: Option<(u32, u32)>)
    ensures
        r == taille_jpeg_depuis(data@, 2),
{
    let n = data.len();
    let mut i: usize = 2;
    while i < n && n - i > 9
        invariant
            n == data@.len(),
            taille_jpeg_depuis(data@, 2) == taille_jpeg_depuis(data@, i as int),
        decreases n - i,
    {
        if data[i] != 0xFF {
            i = i + 1;
        } else {
            let marker = data[i + 1];
            if 0xC0 <= marker && marker <= 0xCF && marker != 0xC4 && marker != 0xC8 && marker != 0xCC {
                let h = data[i + 5] as u32 * 256 + data[i + 6] as u32;
                let w = data[i + 7] as u32 * 256 + data[i + 8] as u32;
                return Some((w, h));
            }
            let len = data[i + 2] as usize * 256 + data[i + 3] as usize;
            if len + 11 >= n - i {
                proof {
                    assert(taille_jpeg_depuis(data@, i + 2 + len) is None);
                }
                return None;
            }
            i = i + 2 + len;
        }
    }
    None
}

// --- The proposals ----------------------------------------------------------------

/// A proposal the creation screen shows beside the one it asked for.
#[derive(Debug, Clone)]
pub struct VarianteSpec {
    /// File suffix and handle: `album.<id>.json`. A bare word, no path.
    pub id: String,
    pub nom: String,
    /// The one sentence that says what makes this proposal different.
    pub about: String,
    pub densite: Densite,
    pub spreads: usize,
}

/// The other offered pace: the first offered one that is not `d`.
pub open spec fn autre_rythme(d: Densite) -> Densite {
    if d != Densite::Aeree { Densite::Aeree } else { Densite::Equilibree }
}

/// A third fewer spreads, never under the eight the composer works from.
pub open spec fn resserre(spreads: nat) -> nat {
    let t = spreads * 2 / 3;
    if t < 8 { 8 } else { t }
}

/// The two proposals shown beside the one asked for: the other offered
/// pace at the same length, and the same pace a third shorter.
pub fn variantes_offertes(densite: Densite, spreads: usize) -> (r: Vec<VarianteSpec>)
    requires
        spreads <= usize::MAX / 2,
    ensures
        r@.len() == 2,
        r@[0].id@ == "autre-rythme"@,
        r@[0].densite == autre_rythme(densite),
        r@[0].nom@ == nom_de(autre_rythme(densite)),
        r@[0].about@ == about_de(autre_rythme(densite)),
        r@[0].spreads == spreads,
        r@[1].id@ == "resserree"@,
        r@[1].nom@ == "Plus court"@,
        r@[1].densite == densite,
        r@[1].spreads == resserre(spreads as nat),
{
    let offertes = Densite::offertes();
    let autre = if offertes[0] != densite {
        offertes[0]
    } else if offertes[1] != densite {
        offertes[1]
    } else {
        densite
    };
    let t = spreads * 2 / 3;
    let court = if t < 8 { 8 } else { t };
    let mut r: Vec<VarianteSpec> = Vec::new();
    r.push(VarianteSpec {
        id: "autre-rythme".to_owned(),
        nom: autre.nom().to_owned(),
        about: autre.about().to_owned(),
        densite: autre,
        spreads,
    });
    r.push(VarianteSpec {
        id: "resserree".to_owned(),
        nom: "Plus court".to_owned(),
        about: "Un tiers de planches en moins, donc moins de photos retenues. Un livre qui se feuillette d'un trait, et qui coûte moins cher à imprimer.".to_owned(),
        densite,
        spreads: court,
    });
    r
}

/// A proposal nobody chose, by its file name: `album.<id>.json` or
/// `curation.<id>.json`, but never the origin the composition keeps.
pub open spec fn est_variante_spec(nom: Seq<char>) -> bool {
    &&& (nom.len() >= 6 && nom.subrange(0, 6) == "album."@) || (nom.len() >= 9 && nom.subrange(0, 9) == "curation."@)
    &&& nom.len() >= 5 && nom.subrange(nom.len() - 5, nom.len() as int) == ".json"@
    &&& occurrences(nom, '.') == 2
    &&& nom != "album.origin.json"@
}

/// How many times `c` occurs in `s`.
pub open spec fn occurrences(s: Seq<char>, c: char) -> nat
    decreases s.len(),
{
    if s.len() == 0 {
        0
    } else {
        occurrences(s.drop_last(), c) + if s.last() == c { 1nat } else { 0nat }
    }
}

fn commence_par(v: &Vec<char>, p: &Vec<char>) -> (b: bool)
    ensures
        b == (v@.len() >= p@.len() && v@.subrange(0, p@.len() as int) == p@),
{
    if v.len() < p.len() {
        return false;
    }
    crate::chaines::egales(crate::chaines::tranche(v.as_slice(), 0, p.len()).as_slice(), p.as_slice())
}

/// Whether the file named `nom` is a proposal nobody chose: these are
/// forgotten at the first save, past which they would be a stale copy of
/// somebody's work.
pub fn est_variante(nom: &str) -> (b: bool)
    ensures
        b == est_variante_spec(nom@),
{
    let v = caracteres(nom);
    let album = caracteres("album.");
    let curation = caracteres("curation.");
    let json = caracteres(".json");
    let origine = caracteres("album.origin.json");
    proof {
        reveal_strlit("album.");
        reveal_strlit("curation.");
        reveal_strlit(".json");
    }
    let debut = commence_par(&v, &album) || commence_par(&v, &curation);
    let fin = v.len() >= 5 && crate::chaines::egales(crate::chaines::tranche(v.as_slice(), v.len() - 5, v.len()).as_slice(), json.as_slice());
    let mut points: usize = 0;
    let mut k: usize = 0;
    while k < v.len()
        invariant
            k <= v@.len(),
            points == occurrences(v@.subrange(0, k as int), '.'),
            points <= k,
        decreases v.len() - k,
    {
        proof {
            let t = v@.subrange(0, k as int + 1);
            assert(t.drop_last() =~= v@.subrange(0, k as int));
        }
        if v[k] == '.' {
            points = points + 1;
        }
        k = k + 1;
    }
    assert(v@.subrange(0, k as int) =~= v@);
    debut && fin && points == 2 && !crate::chaines::egales(v.as_slice(), origine.as_slice())
}


// --- Recomposing around pinned spreads -------------------------------------------------

/// The capture time that anchors spread `i`: its first photo's, or, for a
/// spread without photos, the time of the spread before it, so that a text
/// page stays glued to its chapter.
pub open spec fn ancre_de<T>(s: Seq<(bool, Option<T>)>, i: int) -> Option<T>
    decreases i + 1,
{
    if i < 0 || i >= s.len() {
        None
    } else {
        match s[i].1 {
            Some(t) => Some(t),
            None => ancre_de(s, i - 1),
        }
    }
}

/// The pinned spreads among the first `k`, each with its rank and anchor.
pub open spec fn ancres_jusqua<T>(s: Seq<(bool, Option<T>)>, k: int) -> Seq<(usize, Option<T>)>
    decreases k,
{
    if k <= 0 {
        Seq::empty()
    } else if s[k - 1].0 {
        ancres_jusqua(s, k - 1).push(((k - 1) as usize, ancre_de(s, k - 1)))
    } else {
        ancres_jusqua(s, k - 1)
    }
}

proof fn lemme_ancres_longueur<T>(s: Seq<(bool, Option<T>)>, k: int)
    requires
        0 <= k <= s.len(),
    ensures
        ancres_jusqua(s, k).len() <= k,
    decreases k,
{
    if k > 0 {
        lemme_ancres_longueur(s, k - 1);
    }
}

/// What a recomposition keeps of an album, from each spread's pin and the
/// capture time of its first photo: every pinned spread with the time that
/// anchors it, in book order, and the number of spreads to compose around
/// them, the spreads left over once the pinned ones are set aside and never
/// fewer than four.
pub fn ancres_de_recomposition<T: Copy>(planches: &[(bool, Option<T>)]) -> (r: (Vec<(usize, Option<T>)>, usize))
    ensures
        r.0@ == ancres_jusqua(planches@, planches@.len() as int),
        r.1 == (if planches@.len() - r.0@.len() < 4 { 4 } else { planches@.len() - r.0@.len() }),
{
    let n = planches.len();
    let mut ancres: Vec<(usize, Option<T>)> = Vec::new();
    let mut derniere: Option<T> = None;
    let mut i: usize = 0;
    while i < n
        invariant
            n == planches@.len(),
            i <= n,
            ancres@ == ancres_jusqua(planches@, i as int),
            derniere == ancre_de(planches@, i - 1),
        decreases n - i,
    {
        let t = match planches[i].1 {
            Some(t) => Some(t),
            None => derniere,
        };
        if planches[i].0 {
            ancres.push((i, t));
        }
        derniere = t;
        i = i + 1;
    }
    proof {
        lemme_ancres_longueur(planches@, n as int);
    }
    let reste = n - ancres.len();
    let cible = if reste < 4 { 4 } else { reste };
    (ancres, cible)
}

} // verus!
