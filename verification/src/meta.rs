//! What a photograph's neighbours may say about it: the names under which a
//! Google Takeout export or a cataloguing application leaves a sidecar next
//! to it, and the rating an XMP packet gives it. A closed list of names,
//! never a directory listing: which of them exists, and what a file holds,
//! is read by the application.

use vstd::prelude::*;
use crate::chaines::{
    caracteres, chaine, concat, tranche, egales, valeur, valeur_chiffre, est_chiffre, copie, que_des_chiffres,
    sans_blanc_debut, est_blanc,
};
use crate::chemins::{souche_du_nom, extension_du_nom, souche_de_nom, extension_de_nom, lemme_dernier_point, dernier_point};

verus! {

/// Google caps a sidecar's name at this many characters before `.json`.
pub const TAKEOUT_NAME_MAX: usize = 46;

/// Where the last `c` of `s` stands.
pub open spec fn derniere_position(s: Seq<char>, c: char) -> Option<int>
    decreases s.len(),
{
    if s.len() == 0 {
        None
    } else if s.last() == c {
        Some(s.len() - 1)
    } else {
        derniere_position(s.drop_last(), c)
    }
}

pub proof fn lemme_derniere_position(s: Seq<char>, c: char)
    ensures
        derniere_position(s, c) matches Some(p) ==> 0 <= p < s.len() && s[p] == c
            && forall|i: int| p < i < s.len() ==> s[i] != c,
        derniere_position(s, c) is None ==> forall|i: int| 0 <= i < s.len() ==> s[i] != c,
    decreases s.len(),
{
    if s.len() > 0 && s.last() != c {
        lemme_derniere_position(s.drop_last(), c);
        assert forall|i: int| 0 <= i < s.len() - 1 implies s.drop_last()[i] == s[i] by {}
    }
}

/// `"NOM(1)"` splits into `("NOM", "(1)")`: a stem that ends with a
/// parenthesised number carries a duplicate marker.
pub open spec fn marque_de_doublon(stem: Seq<char>) -> Option<(Seq<char>, Seq<char>)> {
    if stem.len() >= 1 && stem.last() == ')' {
        let sans = stem.drop_last();
        match derniere_position(sans, '(') {
            Some(o) => {
                let chiffres = sans.subrange(o + 1, sans.len() as int);
                if chiffres.len() > 0 && que_des_chiffres(chiffres) {
                    Some((stem.subrange(0, o), stem.subrange(o, stem.len() as int)))
                } else {
                    None
                }
            },
            None => None,
        }
    } else {
        None
    }
}

fn position_derniere(s: &Vec<char>, c: char) -> (r: Option<usize>)
    ensures
        r matches Some(p) ==> derniere_position(s@, c) == Some(p as int),
        r is None ==> derniere_position(s@, c) is None,
{
    let mut k: usize = s.len();
    assert(s@.subrange(0, k as int) =~= s@);
    while k > 0
        invariant
            k <= s@.len(),
            derniere_position(s@, c) == derniere_position(s@.subrange(0, k as int), c),
        decreases k,
    {
        if s[k - 1] == c {
            return Some(k - 1);
        }
        proof {
            let t = s@.subrange(0, k as int);
            assert(t.drop_last() =~= s@.subrange(0, k - 1));
        }
        k = k - 1;
    }
    None
}

fn que_des_chiffres_de(s: &Vec<char>) -> (b: bool)
    ensures
        b == que_des_chiffres(s@),
{
    let mut i: usize = 0;
    while i < s.len()
        invariant
            i <= s@.len(),
            forall|k: int| 0 <= k < i ==> est_chiffre(#[trigger] s@[k]),
        decreases s.len() - i,
    {
        if !('0' <= s[i] && s[i] <= '9') {
            return false;
        }
        i = i + 1;
    }
    true
}

fn marque_de(stem: &Vec<char>) -> (r: Option<(Vec<char>, Vec<char>)>)
    ensures
        r matches Some(p) ==> marque_de_doublon(stem@) == Some((p.0@, p.1@)),
        r is None ==> marque_de_doublon(stem@) is None,
{
    let n = stem.len();
    if n < 1 || stem[n - 1] != ')' {
        return None;
    }
    let sans = tranche(stem.as_slice(), 0, n - 1);
    assert(sans@ =~= stem@.drop_last());
    match position_derniere(&sans, '(') {
        Some(o) => {
            proof {
                lemme_derniere_position(sans@, '(');
            }
            let chiffres = tranche(sans.as_slice(), o + 1, sans.len());
            if chiffres.len() > 0 && que_des_chiffres_de(&chiffres) {
                Some((tranche(stem.as_slice(), 0, o), tranche(stem.as_slice(), o, n)))
            } else {
                None
            }
        },
        None => None,
    }
}

/// `"NOM(1)"` → `("NOM", "(1)")`, `None` when the stem carries no marker.
pub fn suffixe_de_doublon(stem: &str) -> (r: Option<(String, String)>)
    ensures
        r matches Some(p) ==> marque_de_doublon(stem@) == Some((p.0@, p.1@)),
        r is None ==> marque_de_doublon(stem@) is None,
{
    let v = caracteres(stem);
    match marque_de(&v) {
        Some((a, b)) => Some((chaine(a.as_slice()), chaine(b.as_slice()))),
        None => None,
    }
}

// --- Takeout sidecars --------------------------------------------------------------

/// The names a sidecar is written under before `.json`, for the photo
/// named `nom`: the name itself, its `.supplemental-metadata` spelling, the
/// stem when it differs, and for a duplicated `NOM(1).EXT` the original name
/// with the marker moved past the extension.
pub open spec fn bases_de(nom: Seq<char>) -> Seq<Seq<char>> {
    let souche = souche_du_nom(nom);
    let b0 = seq![nom, nom + ".supplemental-metadata"@];
    let b1 = if souche != nom { b0.push(souche) } else { b0 };
    match marque_de_doublon(souche) {
        Some((racine, marque)) => {
            let ext = nom.subrange(souche.len() as int, nom.len() as int);
            b1.push(racine + ext + marque).push(racine + ext + ".supplemental-metadata"@ + marque)
        },
        None => b1,
    }
}

/// The bases Google's cap would cut, cut: the first 46 characters of each
/// one longer than that, in order.
pub open spec fn tronquees(b: Seq<Seq<char>>) -> Seq<Seq<char>>
    decreases b.len(),
{
    if b.len() == 0 {
        Seq::empty()
    } else if b.last().len() > TAKEOUT_NAME_MAX {
        tronquees(b.drop_last()).push(b.last().subrange(0, TAKEOUT_NAME_MAX as int))
    } else {
        tronquees(b.drop_last())
    }
}

/// `Vec::dedup`: an element equal to the one just before it is dropped.
pub open spec fn sans_repetition(s: Seq<Seq<char>>) -> Seq<Seq<char>>
    decreases s.len(),
{
    if s.len() <= 1 {
        s
    } else if s.last() == s[s.len() - 2] {
        sans_repetition(s.drop_last())
    } else {
        sans_repetition(s.drop_last()).push(s.last())
    }
}

/// Each base, with `.json` after it.
pub open spec fn en_json(s: Seq<Seq<char>>) -> Seq<Seq<char>> {
    Seq::new(s.len(), |i: int| s[i] + ".json"@)
}

/// The photo an edited version belongs to: `X-edited.EXT` is `X.EXT`'s.
pub open spec fn original_de(nom: Seq<char>) -> Option<Seq<char>> {
    let souche = souche_du_nom(nom);
    if souche.len() >= 7 && souche.subrange(souche.len() - 7, souche.len() as int) == "-edited"@ {
        let racine = souche.subrange(0, souche.len() - 7);
        Some(match extension_du_nom(nom) {
            Some(e) => racine + seq!['.'] + e,
            None => racine,
        })
    } else {
        None
    }
}

pub proof fn lemme_original_plus_court(nom: Seq<char>)
    ensures
        original_de(nom) matches Some(o) ==> o.len() + 7 == nom.len(),
{
    lemme_dernier_point(nom);
}

/// Every sidecar name to try for the photo named `nom`, most common first,
/// truncations last, then those of the original an edited version belongs
/// to. A closed list.
pub open spec fn candidats(nom: Seq<char>) -> Seq<Seq<char>>
    decreases nom.len(),
{
    let b = bases_de(nom);
    let propres = en_json(sans_repetition(b + tronquees(b)));
    match original_de(nom) {
        Some(o) => {
            proof {
                lemme_original_plus_court(nom);
            }
            propres + candidats(o)
        },
        None => propres,
    }
}

/// The character sequences of a list of strings.
pub open spec fn vues_chaines(v: Seq<String>) -> Seq<Seq<char>> {
    Seq::new(v.len(), |i: int| v[i]@)
}

/// The character sequences of a list of character vectors.
pub open spec fn vues_vecs(v: Seq<Vec<char>>) -> Seq<Seq<char>> {
    Seq::new(v.len(), |i: int| v[i]@)
}

fn bases(nom: &Vec<char>) -> (r: Vec<Vec<char>>)
    ensures
        vues_vecs(r@) == bases_de(nom@),
{
    let supp = caracteres(".supplemental-metadata");
    let souche = souche_de_nom(nom.as_slice());
    let mut r: Vec<Vec<char>> = Vec::new();
    r.push(tranche(nom.as_slice(), 0, nom.len()));
    r.push(concat(nom.as_slice(), supp.as_slice()));
    proof {
        assert(nom@.subrange(0, nom@.len() as int) =~= nom@);
    }
    if !egales(souche.as_slice(), nom.as_slice()) {
        r.push(tranche(souche.as_slice(), 0, souche.len()));
        assert(souche@.subrange(0, souche@.len() as int) =~= souche@);
    }
    proof {
        lemme_dernier_point(nom@);
    }
    match marque_de(&souche) {
        Some((racine, marque)) => {
            let ext = tranche(nom.as_slice(), souche.len(), nom.len());
            let re = concat(racine.as_slice(), ext.as_slice());
            r.push(concat(re.as_slice(), marque.as_slice()));
            let res = concat(re.as_slice(), supp.as_slice());
            r.push(concat(res.as_slice(), marque.as_slice()));
        },
        None => {},
    }
    assert(vues_vecs(r@) =~= bases_de(nom@));
    r
}

fn tronquer(b: &Vec<Vec<char>>) -> (r: Vec<Vec<char>>)
    ensures
        vues_vecs(r@) == tronquees(vues_vecs(b@)),
{
    let mut r: Vec<Vec<char>> = Vec::new();
    let mut i: usize = 0;
    while i < b.len()
        invariant
            i <= b@.len(),
            vues_vecs(r@) == tronquees(vues_vecs(b@).subrange(0, i as int)),
        decreases b.len() - i,
    {
        proof {
            let s = vues_vecs(b@).subrange(0, i as int + 1);
            assert(s.drop_last() =~= vues_vecs(b@).subrange(0, i as int));
        }
        let ghost avant = vues_vecs(r@);
        if b[i].len() > TAKEOUT_NAME_MAX {
            r.push(tranche(b[i].as_slice(), 0, TAKEOUT_NAME_MAX));
            assert(vues_vecs(r@) =~= avant.push(b@[i as int]@.subrange(0, TAKEOUT_NAME_MAX as int)));
        }
        i = i + 1;
    }
    assert(vues_vecs(b@).subrange(0, i as int) =~= vues_vecs(b@));
    r
}

fn dedoublonner(s: &Vec<Vec<char>>) -> (r: Vec<Vec<char>>)
    ensures
        vues_vecs(r@) == sans_repetition(vues_vecs(s@)),
{
    let mut r: Vec<Vec<char>> = Vec::new();
    let mut i: usize = 0;
    while i < s.len()
        invariant
            i <= s@.len(),
            vues_vecs(r@) == sans_repetition(vues_vecs(s@).subrange(0, i as int)),
        decreases s.len() - i,
    {
        proof {
            let t = vues_vecs(s@).subrange(0, i as int + 1);
            assert(t.drop_last() =~= vues_vecs(s@).subrange(0, i as int));
        }
        let ghost avant = vues_vecs(r@);
        if i == 0 || !egales(s[i].as_slice(), s[i - 1].as_slice()) {
            r.push(tranche(s[i].as_slice(), 0, s[i].len()));
            proof {
                assert(s@[i as int]@.subrange(0, s@[i as int]@.len() as int) =~= s@[i as int]@);
                if i == 0 {
                    assert(vues_vecs(s@).subrange(0, 1) =~= seq![s@[0]@]);
                }
                assert(vues_vecs(r@) =~= avant.push(s@[i as int]@));
            }
        }
        i = i + 1;
    }
    assert(vues_vecs(s@).subrange(0, i as int) =~= vues_vecs(s@));
    r
}

fn noms_de_sidecar(nom: &Vec<char>) -> (r: Vec<Vec<char>>)
    ensures
        vues_vecs(r@) == candidats(nom@),
    decreases nom@.len(),
{
    let json = caracteres(".json");
    let b = bases(nom);
    let t = tronquer(&b);
    let mut tout: Vec<Vec<char>> = Vec::new();
    let mut i: usize = 0;
    while i < b.len()
        invariant
            i <= b@.len(),
            vues_vecs(tout@) == vues_vecs(b@).subrange(0, i as int),
        decreases b.len() - i,
    {
        let ghost avant = vues_vecs(tout@);
        let x = copie(b[i].as_slice());
        tout.push(x);
        assert(vues_vecs(tout@) =~= avant.push(b@[i as int]@));
        assert(vues_vecs(b@).subrange(0, i as int + 1) =~= vues_vecs(b@).subrange(0, i as int).push(b@[i as int]@));
        i = i + 1;
        assert(vues_vecs(tout@) =~= vues_vecs(b@).subrange(0, i as int));
    }
    let mut j: usize = 0;
    while j < t.len()
        invariant
            i == b@.len(),
            j <= t@.len(),
            vues_vecs(tout@) == vues_vecs(b@) + vues_vecs(t@).subrange(0, j as int),
        decreases t.len() - j,
    {
        let ghost avant = vues_vecs(tout@);
        let x = copie(t[j].as_slice());
        tout.push(x);
        assert(vues_vecs(tout@) =~= avant.push(t@[j as int]@));
        assert(vues_vecs(t@).subrange(0, j as int + 1) =~= vues_vecs(t@).subrange(0, j as int).push(t@[j as int]@));
        j = j + 1;
        assert(vues_vecs(tout@) =~= vues_vecs(b@) + vues_vecs(t@).subrange(0, j as int));
    }
    assert(vues_vecs(b@).subrange(0, i as int) =~= vues_vecs(b@));
    assert(vues_vecs(t@).subrange(0, j as int) =~= vues_vecs(t@));
    let d = dedoublonner(&tout);
    let mut out: Vec<Vec<char>> = Vec::new();
    let mut k: usize = 0;
    while k < d.len()
        invariant
            k <= d@.len(),
            json@ == ".json"@,
            vues_vecs(out@) == en_json(vues_vecs(d@).subrange(0, k as int)),
        decreases d.len() - k,
    {
        let ghost avant = vues_vecs(out@);
        let x = concat(d[k].as_slice(), json.as_slice());
        out.push(x);
        assert(vues_vecs(out@) =~= avant.push(d@[k as int]@ + ".json"@));
        assert(vues_vecs(d@).subrange(0, k as int + 1) =~= vues_vecs(d@).subrange(0, k as int).push(d@[k as int]@));
        k = k + 1;
        assert(vues_vecs(out@) =~= en_json(vues_vecs(d@).subrange(0, k as int)));
    }
    assert(vues_vecs(d@).subrange(0, k as int) =~= vues_vecs(d@));
    let souche = souche_de_nom(nom.as_slice());
    let edited = caracteres("-edited");
    let ns = souche.len();
    if ns >= 7 && egales(tranche(souche.as_slice(), ns - 7, ns).as_slice(), edited.as_slice()) {
        let racine = tranche(souche.as_slice(), 0, ns - 7);
        let original = match extension_de_nom(nom.as_slice()) {
            Some(e) => {
                let rp = concat(racine.as_slice(), &['.']);
                concat(rp.as_slice(), e.as_slice())
            },
            None => racine,
        };
        proof {
            lemme_original_plus_court(nom@);
            assert(original_de(nom@) == Some(original@));
        }
        let suite = noms_de_sidecar(&original);
        let ghost avant = vues_vecs(out@);
        let mut q: usize = 0;
        while q < suite.len()
            invariant
                q <= suite@.len(),
                vues_vecs(out@) == avant + vues_vecs(suite@).subrange(0, q as int),
            decreases suite.len() - q,
        {
            let ghost avant2 = vues_vecs(out@);
            let x = copie(suite[q].as_slice());
            out.push(x);
            assert(vues_vecs(out@) =~= avant2.push(suite@[q as int]@));
            assert(vues_vecs(suite@).subrange(0, q as int + 1) =~= vues_vecs(suite@).subrange(0, q as int).push(suite@[q as int]@));
            q = q + 1;
            assert(vues_vecs(out@) =~= avant + vues_vecs(suite@).subrange(0, q as int));
        }
        assert(vues_vecs(suite@).subrange(0, q as int) =~= vues_vecs(suite@));
    }
    out
}

/// The candidate sidecar names for the photo named `nom`, in the order they
/// are tried: most common spelling first, truncations last, then the
/// original's when `nom` is an edited version. The first that exists wins.
pub fn takeout_sidecar_candidates(nom: &str) -> (r: Vec<String>)
    ensures
        vues_chaines(r@) == candidats(nom@),
{
    let v = caracteres(nom);
    let c = noms_de_sidecar(&v);
    let mut r: Vec<String> = Vec::new();
    let mut i: usize = 0;
    while i < c.len()
        invariant
            i <= c@.len(),
            vues_chaines(r@) == vues_vecs(c@).subrange(0, i as int),
        decreases c.len() - i,
    {
        let ghost avant = vues_chaines(r@);
        let x = chaine(c[i].as_slice());
        r.push(x);
        assert(vues_chaines(r@) =~= avant.push(c@[i as int]@));
        assert(vues_vecs(c@).subrange(0, i as int + 1) =~= vues_vecs(c@).subrange(0, i as int).push(c@[i as int]@));
        i = i + 1;
        assert(vues_chaines(r@) =~= vues_vecs(c@).subrange(0, i as int));
    }
    assert(vues_vecs(c@).subrange(0, i as int) =~= vues_vecs(c@));
    r
}

// --- XMP sidecars and ratings ------------------------------------------------------

/// The two names an XMP sidecar is written under: the extension replaced
/// (`IMG_1234.xmp`) and the extension appended (`IMG_1234.jpg.xmp`), the
/// second only when it differs from the first.
pub open spec fn noms_xmp_de(nom: Seq<char>) -> Seq<Seq<char>> {
    let remplace = souche_du_nom(nom) + ".xmp"@;
    let ajoute = nom + ".xmp"@;
    if ajoute != remplace { seq![remplace, ajoute] } else { seq![remplace] }
}

/// The sidecar names to read, sidecar first, for the photo named `nom`.
pub fn sidecar_names(nom: &str) -> (r: Vec<String>)
    ensures
        vues_chaines(r@) == noms_xmp_de(nom@),
{
    let v = caracteres(nom);
    let xmp = caracteres(".xmp");
    let souche = souche_de_nom(v.as_slice());
    let remplace = concat(souche.as_slice(), xmp.as_slice());
    let ajoute = concat(v.as_slice(), xmp.as_slice());
    let mut r: Vec<String> = Vec::new();
    r.push(chaine(remplace.as_slice()));
    if !egales(ajoute.as_slice(), remplace.as_slice()) {
        r.push(chaine(ajoute.as_slice()));
    }
    assert(vues_chaines(r@) =~= noms_xmp_de(nom@));
    r
}

/// The first place `m` occurs in `s` at or after `i`.
pub open spec fn premiere_occurrence(s: Seq<char>, m: Seq<char>, i: int) -> Option<int>
    decreases s.len() + 1 - i,
{
    if i < 0 || i + m.len() > s.len() {
        None
    } else if s.subrange(i, i + m.len()) == m {
        Some(i)
    } else {
        premiere_occurrence(s, m, i + 1)
    }
}

pub proof fn lemme_premiere_occurrence(s: Seq<char>, m: Seq<char>, i: int)
    ensures
        premiere_occurrence(s, m, i) matches Some(p) ==> i <= p && p + m.len() <= s.len()
            && s.subrange(p, p + m.len()) == m,
    decreases s.len() + 1 - i,
{
    if !(i < 0 || i + m.len() > s.len()) && s.subrange(i, i + m.len()) != m {
        lemme_premiere_occurrence(s, m, i + 1);
    }
}

/// `s` without its leading quotes, single or double.
pub open spec fn sans_guillemets(s: Seq<char>) -> Seq<char>
    decreases s.len(),
{
    if s.len() > 0 && (s[0] == '"' || s[0] == '\'') {
        sans_guillemets(s.drop_first())
    } else {
        s
    }
}

/// The characters a rating value is written with.
pub open spec fn signe_de_nombre(c: char) -> bool {
    est_chiffre(c) || c == '-' || c == '.'
}

/// The longest prefix of `s` made of digits, `-` and `.`.
pub open spec fn prefixe_numerique(s: Seq<char>) -> Seq<char>
    decreases s.len(),
{
    if s.len() > 0 && signe_de_nombre(s[0]) {
        seq![s[0]] + prefixe_numerique(s.drop_first())
    } else {
        Seq::empty()
    }
}

/// What follows `xmp:Rating`, in either RDF spelling: an attribute
/// (`="4"`) or a child element (`>4<`).
pub open spec fn valeur_apres(rest: Seq<char>) -> Option<Seq<char>> {
    let r = sans_blanc_debut(rest);
    if r.len() == 0 {
        None
    } else if r[0] == '=' {
        Some(sans_guillemets(sans_blanc_debut(r.drop_first())))
    } else if r[0] == '>' {
        Some(r.drop_first())
    } else {
        None
    }
}

/// The first `.` of `s`.
pub open spec fn premier_point(s: Seq<char>) -> Option<int>
    decreases s.len(),
{
    if s.len() == 0 {
        None
    } else if s[0] == '.' {
        Some(0)
    } else {
        match premier_point(s.drop_first()) {
            Some(p) => Some(p + 1),
            None => None,
        }
    }
}

/// A rating as written: an optional `-`, then digits with at most one `.`
/// and at least one digit somewhere; read as its decimal value rounded half
/// away from zero. `None` when the text is not such a number.
pub open spec fn arrondi_lu(d: Seq<char>) -> Option<int> {
    let negatif = d.len() > 0 && d[0] == '-';
    let corps = if negatif { d.drop_first() } else { d };
    let (entier, frac) = match premier_point(corps) {
        Some(p) => (corps.subrange(0, p), corps.subrange(p + 1, corps.len() as int)),
        None => (corps, Seq::<char>::empty()),
    };
    if que_des_chiffres(entier) && que_des_chiffres(frac) && (entier.len() > 0 || frac.len() > 0) {
        let a = valeur(entier) + if frac.len() > 0 && valeur_chiffre(frac[0]) >= 5 { 1int } else { 0int };
        Some(if negatif { -a } else { a })
    } else {
        None
    }
}

/// -1 is Adobe's rejected photo, 1 to 5 are stars; everything else, 0
/// included, means unrated.
pub open spec fn note_bornee(r: int) -> Option<i8> {
    if r == -1 {
        Some(-1i8)
    } else if 1 <= r <= 5 {
        Some(r as i8)
    } else {
        None
    }
}

/// The rating an XMP packet gives, if any.
pub open spec fn note_xmp(xmp: Seq<char>) -> Option<i8> {
    match premiere_occurrence(xmp, "xmp:Rating"@, 0) {
        None => None,
        Some(at) => match valeur_apres(xmp.subrange(at + 10, xmp.len() as int)) {
            None => None,
            Some(v) => match arrondi_lu(prefixe_numerique(sans_blanc_debut(v))) {
                None => None,
                Some(r) => note_bornee(r),
            },
        },
    }
}

fn cherche_motif(s: &Vec<char>, m: &Vec<char>) -> (r: Option<usize>)
    ensures
        r matches Some(p) ==> premiere_occurrence(s@, m@, 0) == Some(p as int),
        r is None ==> premiere_occurrence(s@, m@, 0) is None,
{
    cherche_motif_depuis(s, m, 0)
}

fn cherche_motif_depuis(s: &Vec<char>, m: &Vec<char>, debut: usize) -> (r: Option<usize>)
    requires
        debut <= s@.len(),
    ensures
        r matches Some(p) ==> premiere_occurrence(s@, m@, debut as int) == Some(p as int),
        r is None ==> premiere_occurrence(s@, m@, debut as int) is None,
{
    let mut i: usize = debut;
    while i <= s.len() && m.len() <= s.len() - i
        invariant
            debut <= i <= s@.len() + 1,
            premiere_occurrence(s@, m@, debut as int) == premiere_occurrence(s@, m@, i as int),
        decreases s.len() + 1 - i,
    {
        let morceau = tranche(s.as_slice(), i, i + m.len());
        proof {
            if i == s@.len() {
                assert(morceau@ =~= m@);
            }
        }
        if egales(morceau.as_slice(), m.as_slice()) {
            return Some(i);
        }
        i = i + 1;
    }
    None
}

fn sans_blancs_devant(v: &Vec<char>, debut: usize) -> (r: usize)
    requires
        debut <= v@.len(),
    ensures
        debut <= r <= v@.len(),
        sans_blanc_debut(v@.subrange(debut as int, v@.len() as int)) == v@.subrange(r as int, v@.len() as int),
{
    let mut i = debut;
    while i < v.len() && est_blanc(v[i])
        invariant
            debut <= i <= v@.len(),
            sans_blanc_debut(v@.subrange(debut as int, v@.len() as int))
                == sans_blanc_debut(v@.subrange(i as int, v@.len() as int)),
        decreases v.len() - i,
    {
        assert(v@.subrange(i as int, v@.len() as int).drop_first() =~= v@.subrange(i + 1, v@.len() as int));
        i = i + 1;
    }
    proof {
        if i < v@.len() {
            assert(v@.subrange(i as int, v@.len() as int)[0] == v@[i as int]);
        }
    }
    i
}

/// The sign, integer digits and fractional digits a rating is written with.
pub open spec fn parties(d: Seq<char>) -> (bool, Seq<char>, Seq<char>) {
    let negatif = d.len() > 0 && d[0] == '-';
    let corps = if negatif { d.drop_first() } else { d };
    match premier_point(corps) {
        Some(p) => (negatif, corps.subrange(0, p), corps.subrange(p + 1, corps.len() as int)),
        None => (negatif, corps, Seq::<char>::empty()),
    }
}

pub proof fn lemme_parties(d: Seq<char>)
    ensures
        arrondi_lu(d) == ({
            let (negatif, entier, frac) = parties(d);
            if que_des_chiffres(entier) && que_des_chiffres(frac) && (entier.len() > 0 || frac.len() > 0) {
                let a = valeur(entier) + if frac.len() > 0 && valeur_chiffre(frac[0]) >= 5 { 1int } else { 0int };
                Some(if negatif { -a } else { a })
            } else {
                None
            }
        }),
{
}

fn lire_arrondi(d: &Vec<char>) -> (r: Option<i64>)
    ensures
        match arrondi_lu(d@) {
            None => r is None,
            Some(a) => r matches Some(x) && (x == a || ((a < -1 || a > 5) && (x < -1 || x > 5))),
        },
{
    proof {
        lemme_parties(d@);
    }
    let negatif = d.len() > 0 && d[0] == '-';
    let debut: usize = if negatif { 1 } else { 0 };
    let corps = tranche(d.as_slice(), debut, d.len());
    proof {
        if negatif {
            assert(corps@ =~= d@.drop_first());
        } else {
            assert(corps@ =~= d@);
        }
    }
    let mut p: usize = 0;
    assert(corps@.subrange(0, corps@.len() as int) =~= corps@);
    proof {
        match premier_point(corps@) {
            Some(q) => assert(q + 0 == q),
            None => {},
        }
    }
    while p < corps.len() && corps[p] != '.'
        invariant
            p <= corps@.len(),
            premier_point(corps@) == match premier_point(corps@.subrange(p as int, corps@.len() as int)) {
                Some(q) => Some(q + p),
                None => None,
            },
        decreases corps.len() - p,
    {
        assert(corps@.subrange(p as int, corps@.len() as int).drop_first() =~= corps@.subrange(p + 1, corps@.len() as int));
        p = p + 1;
    }
    proof {
        if p == corps@.len() {
            assert(corps@.subrange(p as int, corps@.len() as int).len() == 0);
        } else {
            assert(corps@.subrange(p as int, corps@.len() as int)[0] == '.');
        }
    }
    let entier = tranche(corps.as_slice(), 0, p);
    let frac = if p < corps.len() { tranche(corps.as_slice(), p + 1, corps.len()) } else { Vec::new() };
    proof {
        if p == corps@.len() {
            assert(entier@ =~= corps@);
            assert(frac@ =~= Seq::<char>::empty());
        }
        assert(parties(d@) == (negatif, entier@, frac@));
    }
    // The integer part, read up to a cap past which no rating lies.
    let mut val: i64 = 0;
    let mut k: usize = 0;
    while k < entier.len()
        invariant
            parties(d@) == (negatif, entier@, frac@),
            k <= entier@.len(),
            forall|j: int| 0 <= j < k ==> est_chiffre(#[trigger] entier@[j]),
            val == if valeur(entier@.subrange(0, k as int)) < 100 { valeur(entier@.subrange(0, k as int)) as int } else { 100 },
        decreases entier.len() - k,
    {
        if !('0' <= entier[k] && entier[k] <= '9') {
            assert(!est_chiffre(entier@[k as int]));
            return None;
        }
        proof {
            let t = entier@.subrange(0, k as int + 1);
            assert(t.drop_last() =~= entier@.subrange(0, k as int));
        }
        let chiffre = (entier[k] as u32 - '0' as u32) as i64;
        val = val * 10 + chiffre;
        if val > 100 {
            val = 100;
        }
        k = k + 1;
    }
    assert(entier@.subrange(0, k as int) =~= entier@);
    let mut q: usize = 0;
    while q < frac.len()
        invariant
            parties(d@) == (negatif, entier@, frac@),
            que_des_chiffres(entier@),
            q <= frac@.len(),
            forall|j: int| 0 <= j < q ==> est_chiffre(#[trigger] frac@[j]),
        decreases frac.len() - q,
    {
        if !('0' <= frac[q] && frac[q] <= '9') {
            assert(!est_chiffre(frac@[q as int]));
            return None;
        }
        q = q + 1;
    }
    if entier.len() == 0 && frac.len() == 0 {
        return None;
    }
    if frac.len() > 0 && frac[0] >= '5' {
        val = val + 1;
    }
    Some(if negatif { -val } else { val })
}

fn note_de(r: i64) -> (n: Option<i8>)
    ensures
        n == note_bornee(r as int),
{
    if r == -1 {
        Some(-1i8)
    } else if 1 <= r && r <= 5 {
        Some(r as i8)
    } else {
        None
    }
}

/// `xmp:Rating` in either of the two RDF spellings: as an attribute of an
/// `rdf:Description`, or as a child element of one. Half stars are rounded,
/// zero and anything outside -1 and 1 to 5 read as unrated.
pub fn rating_in_xmp(xmp: &str) -> (r: Option<i8>)
    ensures
        r == note_xmp(xmp@),
{
    let v = caracteres(xmp);
    let motif = caracteres("xmp:Rating");
    proof {
        reveal_strlit("xmp:Rating");
    }
    let at = match cherche_motif(&v, &motif) {
        Some(a) => a,
        None => return None,
    };
    proof {
        lemme_premiere_occurrence(v@, motif@, 0);
        assert(motif@.len() == 10);
        assert(premiere_occurrence(v@, motif@, 0) == Some(at as int));
        assert(at + 10 <= v@.len());
    }
    let n = v.len();
    let i = sans_blancs_devant(&v, at + 10);
    if i >= n {
        return None;
    }
    let debut_valeur: usize;
    if v[i] == '=' {
        let j = sans_blancs_devant(&v, i + 1);
        let mut k = j;
        while k < v.len() && (v[k] == '"' || v[k] == '\'')
            invariant
                j <= k <= v@.len(),
                sans_guillemets(v@.subrange(j as int, v@.len() as int))
                    == sans_guillemets(v@.subrange(k as int, v@.len() as int)),
            decreases v.len() - k,
        {
            assert(v@.subrange(k as int, v@.len() as int).drop_first() =~= v@.subrange(k + 1, v@.len() as int));
            k = k + 1;
        }
        proof {
            assert(v@.subrange(i as int, v@.len() as int).drop_first() =~= v@.subrange(i + 1, v@.len() as int));
            if k < v@.len() {
                assert(v@.subrange(k as int, v@.len() as int)[0] == v@[k as int]);
            }
        }
        debut_valeur = k;
    } else if v[i] == '>' {
        proof {
            assert(v@.subrange(i as int, v@.len() as int).drop_first() =~= v@.subrange(i + 1, v@.len() as int));
        }
        debut_valeur = i + 1;
    } else {
        return None;
    }
    let d = sans_blancs_devant(&v, debut_valeur);
    let mut f = d;
    while f < v.len() && (('0' <= v[f] && v[f] <= '9') || v[f] == '-' || v[f] == '.')
        invariant
            d <= f <= v@.len(),
            prefixe_numerique(v@.subrange(d as int, v@.len() as int))
                == v@.subrange(d as int, f as int) + prefixe_numerique(v@.subrange(f as int, v@.len() as int)),
        decreases v.len() - f,
    {
        proof {
            let t = v@.subrange(f as int, v@.len() as int);
            assert(t.drop_first() =~= v@.subrange(f + 1, v@.len() as int));
            assert(v@.subrange(d as int, f as int) + seq![v@[f as int]] =~= v@.subrange(d as int, f + 1));
            assert(v@.subrange(d as int, f as int) + (seq![t[0]] + prefixe_numerique(t.drop_first()))
                =~= v@.subrange(d as int, f + 1) + prefixe_numerique(v@.subrange(f + 1, v@.len() as int)));
        }
        f = f + 1;
    }
    proof {
        if f < v@.len() {
            assert(v@.subrange(f as int, v@.len() as int)[0] == v@[f as int]);
        }
        assert(v@.subrange(d as int, f as int) + Seq::<char>::empty() =~= v@.subrange(d as int, f as int));
    }
    let chiffres = tranche(v.as_slice(), d, f);
    match lire_arrondi(&chiffres) {
        None => None,
        Some(x) => note_de(x),
    }
}


/// The rating of the XMP packet a file's header carries: the text from the
/// first `<x:xmpmeta` up to the `</x:xmpmeta>` that follows it, read as
/// XMP; nothing when either is missing.
pub open spec fn note_de_l_entete(t: Seq<char>) -> Option<i8> {
    match premiere_occurrence(t, "<x:xmpmeta"@, 0) {
        None => None,
        Some(a) => match premiere_occurrence(t, "</x:xmpmeta>"@, a) {
            None => None,
            Some(b) => note_xmp(t.subrange(a, b)),
        },
    }
}

/// The rating of the XMP packet in a file's header, read as text.
pub fn rating_in_header(text: &str) -> (r: Option<i8>)
    ensures
        r == note_de_l_entete(text@),
{
    let v = caracteres(text);
    let ouvre = caracteres("<x:xmpmeta");
    let ferme = caracteres("</x:xmpmeta>");
    let a = match cherche_motif(&v, &ouvre) {
        Some(a) => a,
        None => return None,
    };
    proof {
        lemme_premiere_occurrence(v@, ouvre@, 0);
    }
    let b = match cherche_motif_depuis(&v, &ferme, a) {
        Some(b) => b,
        None => return None,
    };
    proof {
        lemme_premiere_occurrence(v@, ferme@, a as int);
    }
    let paquet = chaine(tranche(v.as_slice(), a, b).as_slice());
    rating_in_xmp(paquet.as_str())
}


proof fn lemme_tronquees_contient(b: Seq<Seq<char>>, k: int)
    requires
        0 <= k < b.len(),
        b[k].len() > 46,
    ensures
        tronquees(b).contains(b[k].subrange(0, 46)),
    decreases b.len(),
{
    let r = tronquees(b.drop_last());
    if k == b.len() - 1 {
        assert(tronquees(b) == r.push(b[k].subrange(0, 46)));
        assert(tronquees(b)[r.len() as int] == b[k].subrange(0, 46));
    } else {
        assert(b.drop_last()[k] == b[k]);
        lemme_tronquees_contient(b.drop_last(), k);
        let j = choose|j: int| 0 <= j < r.len() && r[j] == b[k].subrange(0, 46);
        if b.last().len() > TAKEOUT_NAME_MAX {
            assert(tronquees(b)[j] == r[j]);
        }
    }
}

proof fn lemme_sans_repetition_garde(s: Seq<Seq<char>>, x: Seq<char>)
    requires
        s.contains(x),
    ensures
        sans_repetition(s).contains(x),
    decreases s.len(),
{
    if s.len() > 1 {
        let d = s.drop_last();
        let r = sans_repetition(d);
        if s.last() == x {
            if s.last() == s[s.len() - 2] {
                assert(d[d.len() - 1] == x);
                lemme_sans_repetition_garde(d, x);
            } else {
                assert(r.push(s.last())[r.len() as int] == x);
            }
        } else {
            let i = choose|i: int| 0 <= i < s.len() && s[i] == x;
            assert(d[i] == x);
            lemme_sans_repetition_garde(d, x);
            if s.last() != s[s.len() - 2] {
                let j = choose|j: int| 0 <= j < r.len() && r[j] == x;
                assert(r.push(s.last())[j] == x);
            }
        }
    }
}

/// Every spelling a sidecar can be written under is tried, and so is the
/// cut Google's 46-character limit makes of every spelling longer than
/// that, not only of the photo's own name.
pub proof fn loi_chaque_nom_trop_long_est_essaye_tronque(nom: Seq<char>, k: int)
    requires
        0 <= k < bases_de(nom).len(),
    ensures
        candidats(nom).contains(bases_de(nom)[k] + ".json"@),
        bases_de(nom)[k].len() > 46 ==> candidats(nom).contains(bases_de(nom)[k].subrange(0, 46) + ".json"@),
{
    let b = bases_de(nom);
    let t = b + tronquees(b);
    let u = sans_repetition(t);
    let propres = en_json(u);
    assert(t[k] == b[k]);
    lemme_sans_repetition_garde(t, b[k]);
    let i = choose|i: int| 0 <= i < u.len() && u[i] == b[k];
    assert(propres[i] == b[k] + ".json"@);
    if b[k].len() > 46 {
        lemme_tronquees_contient(b, k);
        let j = choose|j: int| 0 <= j < tronquees(b).len() && tronquees(b)[j] == b[k].subrange(0, 46);
        assert(t[b.len() + j] == b[k].subrange(0, 46));
        lemme_sans_repetition_garde(t, b[k].subrange(0, 46));
        let i2 = choose|i2: int| 0 <= i2 < u.len() && u[i2] == b[k].subrange(0, 46);
        assert(propres[i2] == b[k].subrange(0, 46) + ".json"@);
    }
    match original_de(nom) {
        Some(o) => {
            let c = candidats(nom);
            assert(c == propres + candidats(o));
            assert(c[i] == propres[i]);
            if b[k].len() > 46 {
                let i2 = choose|i2: int| 0 <= i2 < u.len() && u[i2] == b[k].subrange(0, 46);
                assert(c[i2] == propres[i2]);
            }
        },
        None => {},
    }
}

} // verus!

