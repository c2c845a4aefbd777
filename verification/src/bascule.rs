//! Carrying an album to another format: the trim changes, every spread
//! keeps its photographs, and only a spread whose cells would betray its
//! photographs changes its template, for one of the same capacity. Judging
//! a template against the new cells measures millimetres and aspect ratios,
//! and is done before this is asked; what the bascule records of each
//! verdict is decided here.

use vstd::prelude::*;
use crate::audit::{famille, famille_de};
use crate::chaines::{caracteres, egales};
use crate::export::{avant, compare_avant, lemme_avant_irreflexif, lemme_avant_total, lemme_avant_transitif};

verus! {

/// What the new format makes of a spread's template.
#[derive(Debug, Clone)]
pub enum Verdict {
    /// The template still suits its photographs.
    Tient,
    /// It no longer suits them; this one, of the same capacity, does.
    Remplace(String),
    /// It no longer suits them, and no template of the same capacity does.
    Inapte,
}

/// One spread, as the bascule reads it.
#[derive(Debug, Clone)]
pub struct PlancheBasculee {
    pub template: String,
    /// Edited or locked.
    pub epinglee: bool,
    pub photos: usize,
    /// Every photograph of the spread has a known size.
    pub mesuree: bool,
    pub verdict: Verdict,
}

/// What the bascule did to the templates.
#[derive(Debug, Clone)]
pub struct Passage {
    /// Every spread's template after the bascule, in book order.
    pub gabarits: Vec<String>,
    /// Spreads carried across with their template untouched.
    pub planches_inchangees: usize,
    /// 1-based spread, template before, template after.
    pub replis: Vec<(usize, String, String)>,
    /// 1-based spread and the template it keeps though it no longer suits.
    pub inaptes: Vec<(usize, String)>,
    /// Pinned spreads whose template moved, 1-based.
    pub epinglees_touchees: Vec<usize>,
}

/// A spread with photographs all measured: the only kind a verdict applies to.
pub open spec fn jugee(p: PlancheBasculee) -> bool {
    p.photos > 0 && p.mesuree
}

/// The template a spread leaves the bascule with.
pub open spec fn gabarit_apres(p: PlancheBasculee) -> Seq<char> {
    match p.verdict {
        Verdict::Remplace(n) => if jugee(p) { n@ } else { p.template@ },
        _ => p.template@,
    }
}

pub open spec fn inchangee(p: PlancheBasculee) -> bool {
    !jugee(p) || p.verdict is Tient
}

pub open spec fn inchangees_de(ps: Seq<PlancheBasculee>, k: int) -> nat
    decreases k,
{
    if k <= 0 { 0 } else { inchangees_de(ps, k - 1) + if inchangee(ps[k - 1]) { 1nat } else { 0nat } }
}

pub open spec fn replis_de(ps: Seq<PlancheBasculee>, k: int) -> Seq<(usize, Seq<char>, Seq<char>)>
    decreases k,
{
    if k <= 0 {
        Seq::empty()
    } else if jugee(ps[k - 1]) && ps[k - 1].verdict is Remplace {
        replis_de(ps, k - 1).push((k as usize, ps[k - 1].template@, gabarit_apres(ps[k - 1])))
    } else {
        replis_de(ps, k - 1)
    }
}

pub open spec fn inaptes_de(ps: Seq<PlancheBasculee>, k: int) -> Seq<(usize, Seq<char>)>
    decreases k,
{
    if k <= 0 {
        Seq::empty()
    } else if jugee(ps[k - 1]) && ps[k - 1].verdict is Inapte {
        inaptes_de(ps, k - 1).push((k as usize, ps[k - 1].template@))
    } else {
        inaptes_de(ps, k - 1)
    }
}

pub open spec fn epinglees_de(ps: Seq<PlancheBasculee>, k: int) -> Seq<usize>
    decreases k,
{
    if k <= 0 {
        Seq::empty()
    } else if jugee(ps[k - 1]) && ps[k - 1].verdict is Remplace && ps[k - 1].epinglee {
        epinglees_de(ps, k - 1).push(k as usize)
    } else {
        epinglees_de(ps, k - 1)
    }
}

/// Record what the new format did to each spread. A spread without
/// photographs, or with one of unknown size, is carried across untouched;
/// one whose template suits is too; one whose template stops suiting takes
/// the replacement found for it, or keeps its template and is named unfit.
/// A pinned spread whose template moved is named.
pub fn reporter(planches: &[PlancheBasculee]) -> (r: Passage)
    requires
        planches@.len() < usize::MAX,
    ensures
        r.gabarits@.len() == planches@.len(),
        forall|i: int| 0 <= i < planches@.len() ==> (#[trigger] r.gabarits@[i])@ == gabarit_apres(planches@[i]),
        r.planches_inchangees == inchangees_de(planches@, planches@.len() as int),
        Seq::new(r.replis@.len(), |i: int| (r.replis@[i].0, r.replis@[i].1@, r.replis@[i].2@))
            == replis_de(planches@, planches@.len() as int),
        Seq::new(r.inaptes@.len(), |i: int| (r.inaptes@[i].0, r.inaptes@[i].1@))
            == inaptes_de(planches@, planches@.len() as int),
        r.epinglees_touchees@ == epinglees_de(planches@, planches@.len() as int),
        r.planches_inchangees + r.replis@.len() + r.inaptes@.len() == planches@.len(),
{
    let n = planches.len();
    let mut gabarits: Vec<String> = Vec::new();
    let mut inchangees: usize = 0;
    let mut replis: Vec<(usize, String, String)> = Vec::new();
    let mut inaptes: Vec<(usize, String)> = Vec::new();
    let mut epinglees: Vec<usize> = Vec::new();
    let mut i: usize = 0;
    assert(Seq::new(replis@.len(), |q: int| (replis@[q].0, replis@[q].1@, replis@[q].2@)) =~= replis_de(planches@, 0));
    assert(Seq::new(inaptes@.len(), |q: int| (inaptes@[q].0, inaptes@[q].1@)) =~= inaptes_de(planches@, 0));
    while i < n
        invariant
            n == planches@.len(),
            n < usize::MAX,
            i <= n,
            gabarits@.len() == i,
            forall|q: int| 0 <= q < i ==> (#[trigger] gabarits@[q])@ == gabarit_apres(planches@[q]),
            inchangees == inchangees_de(planches@, i as int),
            Seq::new(replis@.len(), |q: int| (replis@[q].0, replis@[q].1@, replis@[q].2@))
                == replis_de(planches@, i as int),
            Seq::new(inaptes@.len(), |q: int| (inaptes@[q].0, inaptes@[q].1@)) == inaptes_de(planches@, i as int),
            epinglees@ == epinglees_de(planches@, i as int),
            inchangees + replis@.len() + inaptes@.len() == i,
        decreases n - i,
    {
        let p = &planches[i];
        let juge = p.photos > 0 && p.mesuree;
        let ghost vr = Seq::new(replis@.len(), |q: int| (replis@[q].0, replis@[q].1@, replis@[q].2@));
        let ghost vi = Seq::new(inaptes@.len(), |q: int| (inaptes@[q].0, inaptes@[q].1@));
        if !juge {
            inchangees = inchangees + 1;
            gabarits.push(p.template.clone());
        } else {
            match &p.verdict {
                Verdict::Tient => {
                    inchangees = inchangees + 1;
                    gabarits.push(p.template.clone());
                },
                Verdict::Remplace(nouveau) => {
                    replis.push((i + 1, p.template.clone(), nouveau.clone()));
                    assert(Seq::new(replis@.len(), |q: int| (replis@[q].0, replis@[q].1@, replis@[q].2@))
                        =~= vr.push(((i + 1) as usize, p.template@, nouveau@)));
                    if p.epinglee {
                        epinglees.push(i + 1);
                    }
                    gabarits.push(nouveau.clone());
                },
                Verdict::Inapte => {
                    inaptes.push((i + 1, p.template.clone()));
                    assert(Seq::new(inaptes@.len(), |q: int| (inaptes@[q].0, inaptes@[q].1@))
                        =~= vi.push(((i + 1) as usize, p.template@)));
                    gabarits.push(p.template.clone());
                },
            }
        }
        i = i + 1;
    }
    Passage { gabarits, planches_inchangees: inchangees, replis, inaptes, epinglees_touchees: epinglees }
}

/// A bascule keeps the book's structure: every spread is counted once, as
/// carried across untouched, given another template, or named unfit.
pub proof fn loi_chaque_planche_est_comptee_une_fois(ps: Seq<PlancheBasculee>, k: int)
    requires
        0 <= k <= ps.len(),
    ensures
        inchangees_de(ps, k) + replis_de(ps, k).len() + inaptes_de(ps, k).len() == k,
    decreases k,
{
    if k > 0 {
        loi_chaque_planche_est_comptee_une_fois(ps, k - 1);
    }
}

/// Only a spread the new format judged, and found betrayed, changes its
/// template: every other keeps the one it had.
pub proof fn loi_seul_le_gabarit_remplace_change(p: PlancheBasculee)
    requires
        !(jugee(p) && p.verdict is Remplace),
    ensures
        gabarit_apres(p) == p.template@,
{
}


// --- Choosing a replacement ---------------------------------------------------------

/// `nom` belongs to `courant`'s family or extends it: a `duo` prefers
/// `duo_paysage` to a `trio`.
pub open spec fn de_famille(courant: Seq<char>, nom: Seq<char>) -> bool {
    famille(courant).is_prefix_of(famille(nom))
}

/// Offered template `k` holds `n` photographs, and is of the current family
/// when `meme` asks for it.
pub open spec fn apte(
    courant: Seq<char>,
    compatibles: Seq<Seq<char>>,
    capacites: Seq<usize>,
    n: usize,
    meme: bool,
    k: int,
) -> bool {
    capacites[k] == n && (!meme || de_famille(courant, compatibles[k]))
}

/// The first offered template, from `k` on, that `apte` accepts.
pub open spec fn premier_apte(
    courant: Seq<char>,
    compatibles: Seq<Seq<char>>,
    capacites: Seq<usize>,
    n: usize,
    meme: bool,
    k: int,
) -> Option<int>
    decreases compatibles.len() - k,
{
    if k < 0 || k >= compatibles.len() || k >= capacites.len() {
        None
    } else if apte(courant, compatibles, capacites, n, meme, k) {
        Some(k)
    } else {
        premier_apte(courant, compatibles, capacites, n, meme, k + 1)
    }
}

/// The replacement a betrayed template gets among those offered as fitting:
/// one of the same capacity, so not a photograph is dropped; of the same
/// family first, else the first offered.
pub open spec fn choix(courant: Seq<char>, compatibles: Seq<Seq<char>>, capacites: Seq<usize>, n: usize) -> Option<
    int,
> {
    match premier_apte(courant, compatibles, capacites, n, true, 0) {
        Some(k) => Some(k),
        None => premier_apte(courant, compatibles, capacites, n, false, 0),
    }
}

/// The names of a list of templates.
pub open spec fn noms_de(v: Seq<String>) -> Seq<Seq<char>> {
    Seq::new(v.len(), |i: int| v[i]@)
}

proof fn lemme_premier_apte(
    courant: Seq<char>,
    compatibles: Seq<Seq<char>>,
    capacites: Seq<usize>,
    n: usize,
    meme: bool,
    k: int,
)
    requires
        0 <= k,
        compatibles.len() == capacites.len(),
    ensures
        premier_apte(courant, compatibles, capacites, n, meme, k) matches Some(q) ==> k <= q < compatibles.len()
            && apte(courant, compatibles, capacites, n, meme, q) && forall|j: int|
            k <= j < q ==> !#[trigger] apte(courant, compatibles, capacites, n, meme, j),
        premier_apte(courant, compatibles, capacites, n, meme, k) is None ==> forall|j: int|
            k <= j < compatibles.len() ==> !#[trigger] apte(courant, compatibles, capacites, n, meme, j),
    decreases compatibles.len() - k,
{
    if k < compatibles.len() && !apte(courant, compatibles, capacites, n, meme, k) {
        lemme_premier_apte(courant, compatibles, capacites, n, meme, k + 1);
    }
}

/// What `choix` picks, said plainly.
proof fn lemme_choix(courant: Seq<char>, noms: Seq<Seq<char>>, capacites: Seq<usize>, n: usize)
    requires
        noms.len() == capacites.len(),
    ensures
        choix(courant, noms, capacites, n) matches Some(k) ==> 0 <= k < capacites.len() && capacites[k] == n,
        choix(courant, noms, capacites, n) is None <==> forall|k: int|
            0 <= k < capacites.len() ==> #[trigger] capacites[k] != n,
        choix(courant, noms, capacites, n) matches Some(k) ==> (de_famille(courant, noms[k]) <==> exists|j: int|
            0 <= j < capacites.len() && #[trigger] capacites[j] == n && de_famille(courant, noms[j])),
        choix(courant, noms, capacites, n) matches Some(k) ==> de_famille(courant, noms[k]) ==> forall|j: int|
            0 <= j < k && #[trigger] capacites[j] == n ==> !de_famille(courant, noms[j]),
        choix(courant, noms, capacites, n) matches Some(k) ==> !de_famille(courant, noms[k]) ==> forall|j: int|
            0 <= j < k ==> #[trigger] capacites[j] != n,
{
    lemme_premier_apte(courant, noms, capacites, n, true, 0);
    lemme_premier_apte(courant, noms, capacites, n, false, 0);
    match premier_apte(courant, noms, capacites, n, true, 0) {
        Some(k) => {
            assert(apte(courant, noms, capacites, n, true, k));
            assert forall|j: int| 0 <= j < k && #[trigger] capacites[j] == n implies !de_famille(courant, noms[j]) by {
                assert(!apte(courant, noms, capacites, n, true, j));
            }
        },
        None => {
            assert forall|j: int| 0 <= j < capacites.len() && #[trigger] capacites[j] == n implies !de_famille(
                courant,
                noms[j],
            ) by {
                assert(!apte(courant, noms, capacites, n, true, j));
            }
            match premier_apte(courant, noms, capacites, n, false, 0) {
                Some(k) => {
                    assert(apte(courant, noms, capacites, n, false, k));
                    assert forall|j: int| 0 <= j < k implies #[trigger] capacites[j] != n by {
                        assert(!apte(courant, noms, capacites, n, false, j));
                    }
                },
                None => {
                    assert forall|j: int| 0 <= j < capacites.len() implies #[trigger] capacites[j] != n by {
                        assert(!apte(courant, noms, capacites, n, false, j));
                    }
                },
            }
        },
    }
}

fn est_prefixe(a: &[char], b: &[char]) -> (r: bool)
    ensures
        r == a@.is_prefix_of(b@),
{
    if a.len() > b.len() {
        return false;
    }
    let mut i: usize = 0;
    while i < a.len()
        invariant
            i <= a@.len() <= b@.len(),
            forall|q: int| 0 <= q < i ==> a@[q] == b@[q],
        decreases a.len() - i,
    {
        if a[i] != b[i] {
            assert(b@.subrange(0, a@.len() as int)[i as int] == b@[i as int]);
            return false;
        }
        i = i + 1;
    }
    assert(a@ =~= b@.subrange(0, a@.len() as int));
    true
}

/// The template a spread falls back to when its own stops fitting, among
/// those offered as fitting its photographs (`capacites[k]` being how many
/// photographs `compatibles[k]` holds): the first of the same capacity and
/// of the same family, else the first of the same capacity, else none.
pub fn replacant(courant: &str, compatibles: &[String], capacites: &[usize], n: usize) -> (r: Option<usize>)
    requires
        compatibles@.len() == capacites@.len(),
    ensures
        r matches Some(k) ==> choix(courant@, noms_de(compatibles@), capacites@, n) == Some(k as int),
        r is None ==> choix(courant@, noms_de(compatibles@), capacites@, n) is None,
        r matches Some(k) ==> k < capacites@.len() && capacites@[k as int] == n,
        r is None <==> forall|k: int| 0 <= k < capacites@.len() ==> #[trigger] capacites@[k] != n,
        r matches Some(k) ==> (de_famille(courant@, noms_de(compatibles@)[k as int]) <==> exists|j: int|
            0 <= j < capacites@.len() && #[trigger] capacites@[j] == n && de_famille(
                courant@,
                noms_de(compatibles@)[j],
            )),
        r matches Some(k) ==> de_famille(courant@, noms_de(compatibles@)[k as int]) ==> forall|j: int|
            0 <= j < k && #[trigger] capacites@[j] == n ==> !de_famille(courant@, noms_de(compatibles@)[j]),
        r matches Some(k) ==> !de_famille(courant@, noms_de(compatibles@)[k as int]) ==> forall|j: int|
            0 <= j < k ==> #[trigger] capacites@[j] != n,
{
    let ghost noms = noms_de(compatibles@);
    let f = famille_de(courant);
    let fc = caracteres(f.as_str());
    let m = compatibles.len();
    proof {
        lemme_choix(courant@, noms, capacites@, n);
    }
    let mut k: usize = 0;
    while k < m
        invariant
            m == compatibles@.len() == capacites@.len(),
            noms == noms_de(compatibles@),
            fc@ == famille(courant@),
            k <= m,
            premier_apte(courant@, noms, capacites@, n, true, 0) == premier_apte(courant@, noms, capacites@, n, true, k as int),
        decreases m - k,
    {
        if capacites[k] == n {
            let g = famille_de(compatibles[k].as_str());
            let gc = caracteres(g.as_str());
            if est_prefixe(fc.as_slice(), gc.as_slice()) {
                assert(apte(courant@, noms, capacites@, n, true, k as int));
                proof {
                    lemme_choix(courant@, noms, capacites@, n);
                }
                return Some(k);
            }
        }
        k = k + 1;
    }
    let mut k: usize = 0;
    while k < m
        invariant
            m == compatibles@.len() == capacites@.len(),
            noms == noms_de(compatibles@),
            k <= m,
            premier_apte(courant@, noms, capacites@, n, true, 0) is None,
            premier_apte(courant@, noms, capacites@, n, false, 0) == premier_apte(courant@, noms, capacites@, n, false, k as int),
        decreases m - k,
    {
        if capacites[k] == n {
            assert(apte(courant@, noms, capacites@, n, false, k as int));
            proof {
                lemme_choix(courant@, noms, capacites@, n);
            }
            return Some(k);
        }
        k = k + 1;
    }
    None
}


// --- Carrying an album across -------------------------------------------------------

/// One spread of an album, as the bascule carries it.
#[derive(Debug, Clone)]
pub struct PlancheAlbum {
    pub template: String,
    /// The photographs, slot by slot, as their slots name them.
    pub photos: Vec<String>,
    /// Edited or locked.
    pub epinglee: bool,
}

/// An album as the bascule carries it: its trim, and its spreads in book
/// order.
#[derive(Debug, Clone)]
pub struct AlbumPlat<F> {
    pub trim: F,
    pub planches: Vec<PlancheAlbum>,
}

/// What the new page shape makes of one spread's photographs, measured
/// before the bascule is asked: whether its template still suits them, and
/// the templates offered as fitting them, with how many photographs each
/// holds.
#[derive(Debug, Clone)]
pub struct Jugement {
    pub tient: bool,
    pub compatibles: Vec<String>,
    pub capacites: Vec<usize>,
}

/// What a bascule did to the templates, and which photographs it could not
/// measure.
#[derive(Debug, Clone)]
pub struct Bilan {
    pub planches: usize,
    /// Spreads carried across with their template untouched.
    pub planches_inchangees: usize,
    /// 1-based spread, template before, template after.
    pub replis: Vec<(usize, String, String)>,
    /// 1-based spread and the template it keeps though it no longer suits.
    pub inaptes: Vec<(usize, String)>,
    /// Pinned spreads whose template moved, 1-based.
    pub epinglees_touchees: Vec<usize>,
    /// Photographs of no known size, sorted, each once: their spreads were
    /// carried across untouched rather than judged on a guess.
    pub tailles_manquantes: Vec<String>,
}

/// The sizes know `src`, as a size a ratio can be taken of.
pub open spec fn mesurable(tailles: Seq<(String, u32, u32)>, src: Seq<char>) -> bool {
    exists|k: int| 0 <= k < tailles.len() && (#[trigger] tailles[k]).0@ == src && tailles[k].1 > 0 && tailles[k].2 > 0
}

/// Every photograph of the spread has a known size.
pub open spec fn toute_mesuree(p: PlancheAlbum, tailles: Seq<(String, u32, u32)>) -> bool {
    forall|c: int| 0 <= c < p.photos@.len() ==> mesurable(tailles, (#[trigger] p.photos@[c])@)
}

/// What the judgement makes of a spread's template.
pub open spec fn verdict_de(p: PlancheAlbum, j: Jugement) -> Verdict {
    if j.tient {
        Verdict::Tient
    } else {
        match choix(p.template@, noms_de(j.compatibles@), j.capacites@, p.photos@.len() as usize) {
            Some(k) => Verdict::Remplace(j.compatibles@[k]),
            None => Verdict::Inapte,
        }
    }
}

/// A spread as the bascule reads it.
pub open spec fn vue(p: PlancheAlbum, j: Jugement, tailles: Seq<(String, u32, u32)>) -> PlancheBasculee {
    PlancheBasculee {
        template: p.template,
        epinglee: p.epinglee,
        photos: p.photos@.len() as usize,
        mesuree: toute_mesuree(p, tailles),
        verdict: verdict_de(p, j),
    }
}

pub open spec fn vues(
    ps: Seq<PlancheAlbum>,
    js: Seq<Jugement>,
    tailles: Seq<(String, u32, u32)>,
) -> Seq<PlancheBasculee> {
    Seq::new(ps.len(), |i: int| vue(ps[i], js[i], tailles))
}

/// `x` is a photograph of one of the spreads and the sizes do not know it.
pub open spec fn manquante(ps: Seq<PlancheAlbum>, tailles: Seq<(String, u32, u32)>, x: Seq<char>) -> bool {
    !mesurable(tailles, x) && exists|i: int, c: int|
        0 <= i < ps.len() && 0 <= c < ps[i].photos@.len() && (#[trigger] ps[i].photos@[c])@ == x
}

/// Sorted by name, strictly: each name once.
pub open spec fn triee(v: Seq<String>) -> bool {
    forall|i: int, j: int| 0 <= i < j < v.len() ==> avant((#[trigger] v[i])@, (#[trigger] v[j])@)
}

/// `v` names `x`.
pub open spec fn nomme(v: Seq<String>, x: Seq<char>) -> bool {
    exists|k: int| 0 <= k < v.len() && (#[trigger] v[k])@ == x
}

fn taille_connue(tailles: &[(String, u32, u32)], src: &String) -> (b: bool)
    ensures
        b == mesurable(tailles@, src@),
{
    let s = caracteres(src.as_str());
    let mut k: usize = 0;
    while k < tailles.len()
        invariant
            k <= tailles@.len(),
            s@ == src@,
            forall|q: int|
                0 <= q < k ==> !((#[trigger] tailles@[q]).0@ == src@ && tailles@[q].1 > 0 && tailles@[q].2 > 0),
        decreases tailles.len() - k,
    {
        let t = &tailles[k];
        if t.1 > 0 && t.2 > 0 && egales(caracteres(t.0.as_str()).as_slice(), s.as_slice()) {
            return true;
        }
        k = k + 1;
    }
    false
}

/// Add a name to a list sorted strictly by name, unless it is there.
fn inserer_nom(v: &mut Vec<String>, nom: &String)
    requires
        triee(old(v)@),
    ensures
        triee(final(v)@),
        forall|x: Seq<char>| nomme(final(v)@, x) <==> (nomme(old(v)@, x) || x == nom@),
{
    let mut p: usize = 0;
    while p < v.len() && compare_avant(&v[p], nom)
        invariant
            p <= v@.len(),
            forall|k: int| 0 <= k < p ==> avant((#[trigger] v@[k])@, nom@),
        decreases v.len() - p,
    {
        p = p + 1;
    }
    if p < v.len() && egales(caracteres(v[p].as_str()).as_slice(), caracteres(nom.as_str()).as_slice()) {
        return;
    }
    let ghost avant_v = v@;
    proof {
        if p < avant_v.len() {
            lemme_avant_total(avant_v[p as int]@, nom@);
        }
    }
    v.insert(p, nom.clone());
    proof {
        assert forall|i: int, j: int| 0 <= i < j < v@.len() implies avant((#[trigger] v@[i])@, (#[trigger] v@[j])@) by {
            if j < p {
                assert(v@[i] == avant_v[i] && v@[j] == avant_v[j]);
            } else if j == p {
                assert(v@[i] == avant_v[i]);
            } else if i == p {
                assert(v@[j] == avant_v[j - 1]);
                if j - 1 > p {
                    assert(avant(avant_v[p as int]@, avant_v[j - 1]@));
                    lemme_avant_transitif(nom@, avant_v[p as int]@, avant_v[j - 1]@);
                }
            } else if i < p {
                assert(v@[i] == avant_v[i] && v@[j] == avant_v[j - 1]);
            } else {
                assert(v@[i] == avant_v[i - 1] && v@[j] == avant_v[j - 1]);
            }
        }
        assert forall|x: Seq<char>| nomme(v@, x) <==> (nomme(avant_v, x) || x == nom@) by {
            if nomme(v@, x) {
                let k = choose|k: int| 0 <= k < v@.len() && (#[trigger] v@[k])@ == x;
                if k < p {
                    assert(v@[k] == avant_v[k]);
                } else if k > p {
                    assert(v@[k] == avant_v[k - 1]);
                }
            }
            if nomme(avant_v, x) {
                let k = choose|k: int| 0 <= k < avant_v.len() && (#[trigger] avant_v[k])@ == x;
                if k < p {
                    assert(v@[k] == avant_v[k]);
                } else {
                    assert(v@[k + 1] == avant_v[k]);
                }
            }
            if x == nom@ {
                assert(v@[p as int]@ == nom@);
            }
        }
    }
}


/// The same album in another format. Two things change, and nothing else:
/// the trim, and the template of a spread whose photographs the new cells
/// would betray, which falls back to an offered template of the same
/// capacity, of its own family first, and otherwise keeps its template and
/// is named unfit. A spread without photographs, or with a photograph of
/// no known size, is carried across untouched, and the photographs of no
/// known size are named, sorted, each once.
pub fn basculer<F>(
    album: &AlbumPlat<F>,
    trim: F,
    tailles: &[(String, u32, u32)],
    jugements: &[Jugement],
) -> (r: (AlbumPlat<F>, Bilan))
    requires
        album.planches@.len() < usize::MAX,
        jugements@.len() == album.planches@.len(),
        forall|i: int|
            0 <= i < jugements@.len() ==> (#[trigger] jugements@[i]).compatibles@.len() == jugements@[i].capacites@.len(),
        forall|a: int, b: int|
            0 <= a < tailles@.len() && 0 <= b < tailles@.len() && a != b ==> (#[trigger] tailles@[a]).0@
                != (#[trigger] tailles@[b]).0@,
    ensures
        r.0.trim == trim,
        r.0.planches@.len() == album.planches@.len(),
        forall|i: int|
            0 <= i < album.planches@.len() ==> {
                &&& (#[trigger] r.0.planches@[i]).photos@ == album.planches@[i].photos@
                &&& r.0.planches@[i].epinglee == album.planches@[i].epinglee
                &&& r.0.planches@[i].template@ == gabarit_apres(
                    vue(album.planches@[i], jugements@[i], tailles@),
                )
            },
        r.1.planches == album.planches@.len(),
        r.1.planches_inchangees == inchangees_de(
            vues(album.planches@, jugements@, tailles@),
            album.planches@.len() as int,
        ),
        Seq::new(r.1.replis@.len(), |i: int| (r.1.replis@[i].0, r.1.replis@[i].1@, r.1.replis@[i].2@))
            == replis_de(vues(album.planches@, jugements@, tailles@), album.planches@.len() as int),
        Seq::new(r.1.inaptes@.len(), |i: int| (r.1.inaptes@[i].0, r.1.inaptes@[i].1@)) == inaptes_de(
            vues(album.planches@, jugements@, tailles@),
            album.planches@.len() as int,
        ),
        r.1.epinglees_touchees@ == epinglees_de(
            vues(album.planches@, jugements@, tailles@),
            album.planches@.len() as int,
        ),
        triee(r.1.tailles_manquantes@),
        forall|x: Seq<char>| nomme(r.1.tailles_manquantes@, x) <==> manquante(album.planches@, tailles@, x),
{
    let n = album.planches.len();
    let ghost ps = album.planches@;
    let ghost vs = vues(ps, jugements@, tailles@);
    let mut manquantes: Vec<String> = Vec::new();
    let mut lues: Vec<PlancheBasculee> = Vec::new();
    let mut i: usize = 0;
    while i < n
        invariant
            n == ps.len() == jugements@.len(),
            ps == album.planches@,
            vs == vues(ps, jugements@, tailles@),
            forall|q: int|
                0 <= q < jugements@.len() ==> (#[trigger] jugements@[q]).compatibles@.len()
                    == jugements@[q].capacites@.len(),
            i <= n,
            lues@ == vs.subrange(0, i as int),
            triee(manquantes@),
            forall|x: Seq<char>| nomme(manquantes@, x) <==> manquante(ps.subrange(0, i as int), tailles@, x),
        decreases n - i,
    {
        let p = &album.planches[i];
        let j = &jugements[i];
        let m = p.photos.len();
        let mut toutes = true;
        let mut c: usize = 0;
        while c < m
            invariant
                n == ps.len(),
                i < n,
                ps == album.planches@,
                *p == ps[i as int],
                m == p.photos@.len(),
                c <= m,
                toutes == forall|q: int| 0 <= q < c ==> mesurable(tailles@, (#[trigger] p.photos@[q])@),
                triee(manquantes@),
                forall|x: Seq<char>|
                    nomme(manquantes@, x) <==> (manquante(ps.subrange(0, i as int), tailles@, x) || (!mesurable(
                        tailles@,
                        x,
                    ) && exists|q: int| 0 <= q < c && (#[trigger] p.photos@[q])@ == x)),
            decreases m - c,
        {
            let connue = taille_connue(tailles, &p.photos[c]);
            let ghost avant_m = manquantes@;
            if !connue {
                toutes = false;
                inserer_nom(&mut manquantes, &p.photos[c]);
            }
            proof {
                assert forall|x: Seq<char>|
                    nomme(manquantes@, x) <==> (manquante(ps.subrange(0, i as int), tailles@, x) || (!mesurable(
                        tailles@,
                        x,
                    ) && exists|q: int| 0 <= q < c + 1 && (#[trigger] p.photos@[q])@ == x)) by {
                    if !mesurable(tailles@, x) && exists|q: int| 0 <= q < c + 1 && (#[trigger] p.photos@[q])@ == x {
                        let q = choose|q: int| 0 <= q < c + 1 && (#[trigger] p.photos@[q])@ == x;
                        if q < c {
                            assert(exists|q: int| 0 <= q < c && (#[trigger] p.photos@[q])@ == x);
                        }
                    }
                    if exists|q: int| 0 <= q < c && (#[trigger] p.photos@[q])@ == x {
                        let q = choose|q: int| 0 <= q < c && (#[trigger] p.photos@[q])@ == x;
                        assert(0 <= q < c + 1 && p.photos@[q]@ == x);
                    }
                }
            }
            c = c + 1;
        }
        let verdict = if j.tient {
            Verdict::Tient
        } else {
            match replacant(p.template.as_str(), j.compatibles.as_slice(), j.capacites.as_slice(), m) {
                Some(k) => Verdict::Remplace(j.compatibles[k].clone()),
                None => Verdict::Inapte,
            }
        };
        let lue = PlancheBasculee {
            template: p.template.clone(),
            epinglee: p.epinglee,
            photos: m,
            mesuree: toutes,
            verdict,
        };
        proof {
            assert(toutes == toute_mesuree(ps[i as int], tailles@));
            assert(lue == vs[i as int]);
            assert forall|x: Seq<char>|
                nomme(manquantes@, x) <== manquante(ps.subrange(0, i as int + 1), tailles@, x) by {
                if manquante(ps.subrange(0, i as int + 1), tailles@, x) {
                    let (a, q) = choose|a: int, q: int|
                        0 <= a < i + 1 && 0 <= q < ps.subrange(0, i as int + 1)[a].photos@.len() && (
                        #[trigger] ps.subrange(0, i as int + 1)[a].photos@[q])@ == x;
                    if a < i {
                        assert(ps.subrange(0, i as int)[a] == ps[a]);
                        assert(manquante(ps.subrange(0, i as int), tailles@, x));
                    } else {
                        assert(p.photos@[q]@ == x);
                    }
                }
            }
            assert forall|x: Seq<char>|
                nomme(manquantes@, x) ==> manquante(ps.subrange(0, i as int + 1), tailles@, x) by {
                if nomme(manquantes@, x) {
                    if manquante(ps.subrange(0, i as int), tailles@, x) {
                        let (a, q) = choose|a: int, q: int|
                            0 <= a < i && 0 <= q < ps.subrange(0, i as int)[a].photos@.len() && (
                            #[trigger] ps.subrange(0, i as int)[a].photos@[q])@ == x;
                        assert(ps.subrange(0, i as int + 1)[a] == ps[a]);
                        assert(ps.subrange(0, i as int + 1)[a].photos@[q]@ == x);
                    } else {
                        let q = choose|q: int| 0 <= q < m && (#[trigger] p.photos@[q])@ == x;
                        assert(ps.subrange(0, i as int + 1)[i as int].photos@[q]@ == x);
                    }
                }
            }
        }
        lues.push(lue);
        i = i + 1;
        proof {
            assert(lues@ =~= vs.subrange(0, i as int));
        }
    }
    assert(lues@ =~= vs);
    assert(ps.subrange(0, n as int) =~= ps);
    let passage = reporter(lues.as_slice());
    let mut planches: Vec<PlancheAlbum> = Vec::new();
    let mut i: usize = 0;
    while i < n
        invariant
            n == ps.len(),
            ps == album.planches@,
            passage.gabarits@.len() == n,
            forall|q: int| 0 <= q < n ==> (#[trigger] passage.gabarits@[q])@ == gabarit_apres(vs[q]),
            vs == vues(ps, jugements@, tailles@),
            i <= n,
            planches@.len() == i,
            forall|q: int|
                0 <= q < i ==> {
                    &&& (#[trigger] planches@[q]).photos@ == ps[q].photos@
                    &&& planches@[q].epinglee == ps[q].epinglee
                    &&& planches@[q].template@ == gabarit_apres(vs[q])
                },
        decreases n - i,
    {
        let p = &album.planches[i];
        let photos = p.photos.clone();
        proof {
            assert forall|q: int| 0 <= q < photos@.len() implies photos@[q] == p.photos@[q] by {
                assert(cloned::<String>(p.photos@[q], photos@[q]));
            }
            assert(photos@ =~= p.photos@);
        }
        planches.push(PlancheAlbum { template: passage.gabarits[i].clone(), photos, epinglee: p.epinglee });
        i = i + 1;
    }
    let bilan = Bilan {
        planches: n,
        planches_inchangees: passage.planches_inchangees,
        replis: passage.replis,
        inaptes: passage.inaptes,
        epinglees_touchees: passage.epinglees_touchees,
        tailles_manquantes: manquantes,
    };
    (AlbumPlat { trim, planches }, bilan)
}


/// Not a photograph is dropped: the template a betrayed spread falls back to
/// is one offered as fitting, holding as many photographs as the spread
/// has; and since the judgement does not offer the template it found
/// betrayed, the spread's template does change.
pub proof fn loi_un_repli_garde_la_capacite(p: PlancheAlbum, j: Jugement, tailles: Seq<(String, u32, u32)>)
    requires
        j.compatibles@.len() == j.capacites@.len(),
        p.photos@.len() <= usize::MAX,
        jugee(vue(p, j, tailles)),
        verdict_de(p, j) is Remplace,
        forall|k: int| 0 <= k < j.compatibles@.len() ==> (#[trigger] j.compatibles@[k])@ != p.template@,
    ensures
        exists|k: int|
            0 <= k < j.capacites@.len() && j.capacites@[k] == p.photos@.len() && (#[trigger] j.compatibles@[k])@
                == gabarit_apres(vue(p, j, tailles)),
        gabarit_apres(vue(p, j, tailles)) != p.template@,
{
    let n = p.photos@.len() as usize;
    lemme_choix(p.template@, noms_de(j.compatibles@), j.capacites@, n);
    let k = choix(p.template@, noms_de(j.compatibles@), j.capacites@, n)->0;
    assert(j.capacites@[k] == n);
    assert(gabarit_apres(vue(p, j, tailles)) == j.compatibles@[k]@);
}

/// The record of a bascule names spreads in book order: each fallback entry
/// is a spread that was judged and given another template, with the
/// template it had and the one it got; each pinned spread named is one of
/// those; both lists go up.
pub proof fn loi_les_replis_suivent_le_livre(ps: Seq<PlancheBasculee>, k: int)
    requires
        0 <= k <= ps.len(),
        k < usize::MAX,
    ensures
        forall|q: int|
            0 <= q < replis_de(ps, k).len() ==> {
                let e = #[trigger] replis_de(ps, k)[q];
                &&& 1 <= e.0 <= k
                &&& jugee(ps[e.0 - 1])
                &&& ps[e.0 - 1].verdict is Remplace
                &&& e.1 == ps[e.0 - 1].template@
                &&& e.2 == gabarit_apres(ps[e.0 - 1])
            },
        forall|a: int, b: int|
            0 <= a < b < replis_de(ps, k).len() ==> (#[trigger] replis_de(ps, k)[a]).0 < (#[trigger] replis_de(
                ps,
                k,
            )[b]).0,
        forall|q: int|
            0 <= q < epinglees_de(ps, k).len() ==> {
                let e = #[trigger] epinglees_de(ps, k)[q];
                &&& 1 <= e <= k
                &&& jugee(ps[e - 1])
                &&& ps[e - 1].verdict is Remplace
                &&& ps[e - 1].epinglee
            },
        forall|a: int, b: int|
            0 <= a < b < epinglees_de(ps, k).len() ==> #[trigger] epinglees_de(ps, k)[a] < #[trigger] epinglees_de(
                ps,
                k,
            )[b],
    decreases k,
{
    if k > 0 {
        loi_les_replis_suivent_le_livre(ps, k - 1);
        let r0 = replis_de(ps, k - 1);
        let e0 = epinglees_de(ps, k - 1);
        if jugee(ps[k - 1]) && ps[k - 1].verdict is Remplace {
            let r = replis_de(ps, k);
            assert(r == r0.push((k as usize, ps[k - 1].template@, gabarit_apres(ps[k - 1]))));
            assert forall|q: int| 0 <= q < r.len() implies {
                let e = #[trigger] r[q];
                &&& 1 <= e.0 <= k
                &&& jugee(ps[e.0 - 1])
                &&& ps[e.0 - 1].verdict is Remplace
                &&& e.1 == ps[e.0 - 1].template@
                &&& e.2 == gabarit_apres(ps[e.0 - 1])
            } by {
                if q < r0.len() {
                    assert(r[q] == r0[q]);
                }
            }
            assert forall|a: int, b: int| 0 <= a < b < r.len() implies (#[trigger] r[a]).0 < (#[trigger] r[b]).0 by {
                assert(r[a] == r0[a]);
                if b < r0.len() {
                    assert(r[b] == r0[b]);
                }
            }
            if ps[k - 1].epinglee {
                let ep = epinglees_de(ps, k);
                assert(ep == e0.push(k as usize));
                assert forall|q: int| 0 <= q < ep.len() implies {
                    let e = #[trigger] ep[q];
                    &&& 1 <= e <= k
                    &&& jugee(ps[e - 1])
                    &&& ps[e - 1].verdict is Remplace
                    &&& ps[e - 1].epinglee
                } by {
                    if q < e0.len() {
                        assert(ep[q] == e0[q]);
                    }
                }
                assert forall|a: int, b: int| 0 <= a < b < ep.len() implies #[trigger] ep[a] < #[trigger] ep[b] by {
                    assert(ep[a] == e0[a]);
                    if b < e0.len() {
                        assert(ep[b] == e0[b]);
                    }
                }
            }
        }
    }
}

} // verus!
