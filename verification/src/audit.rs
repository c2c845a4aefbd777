//! The linter's counting rules that need no pixel: the long flat stretches
//! of a book, the repeated template families, and where its chapters run.
//! The thresholds are shared with the composer, which is held under them.

use vstd::prelude::*;
use crate::chaines::{caracteres, chaine, egales, concat, en_decimal, decimal};
use crate::construction::vue_option;
use crate::analyze::{hamming, color_distance, bits_a_un, ecarts};

verus! {

/// Two photos this close in dHash on one spread read as duplicates.
pub const DUP_HAMMING: u32 = 24;
/// Longest run of spreads without a full page before the rhythm reads flat.
pub const FLAT_RUN: usize = 6;
/// The same template family this many times in a row reads as a repetition.
pub const REPEAT_RUN: usize = 4;
/// A chapter needs at least this many photos for the opening-quartile rule.
pub const OPENING_MIN_PHOTOS: usize = 4;

// --- Flat stretches ------------------------------------------------------------

/// `[a, a + l)` is a whole stretch of spreads holding more than one photo:
/// nothing but grids inside, a breathing page or the book's edge on both
/// sides.
pub open spec fn etendue_plate(s: Seq<usize>, a: int, l: int) -> bool {
    &&& 0 <= a
    &&& 1 <= l
    &&& a + l <= s.len()
    &&& forall|j: int| a <= j < a + l ==> s[j] > 1
    &&& (a == 0 || s[a - 1] <= 1)
    &&& (a + l == s.len() || s[a + l] <= 1)
}

/// `runs` are the stretches of more than [`FLAT_RUN`] spreads without a
/// breathing page, each once, as `(first spread, length)`, in book order.
pub open spec fn etendues_plates(s: Seq<usize>, runs: Seq<(usize, usize)>) -> bool {
    &&& forall|k: int| 0 <= k < runs.len() ==>
            etendue_plate(s, (#[trigger] runs[k]).0 as int, runs[k].1 as int) && runs[k].1 > FLAT_RUN
    &&& forall|k1: int, k2: int| 0 <= k1 < k2 < runs.len() ==>
            (#[trigger] runs[k1]).0 < (#[trigger] runs[k2]).0
    &&& forall|a: int, l: int| etendue_plate(s, a, l) && l > FLAT_RUN ==>
            exists|k: int| 0 <= k < runs.len() && #[trigger] runs[k] == (a as usize, l as usize)
}

/// Every stretch of more than [`FLAT_RUN`] spreads without a breathing page,
/// as `(first spread, length)`, in book order. A spread breathes when it holds
/// at most one photo.
pub fn flat_runs(slot_counts: &[usize]) -> (runs: Vec<(usize, usize)>)
    ensures
        etendues_plates(slot_counts@, runs@),
{
    let ghost s = slot_counts@;
    let mut runs: Vec<(usize, usize)> = Vec::new();
    let mut start: usize = 0;
    let mut len: usize = 0;
    let n = slot_counts.len();
    let mut i: usize = 0;
    while i < n
        invariant
            s == slot_counts@,
            n == s.len(),
            i <= n,
            start + len == i || len == 0,
            len > 0 ==> start + len == i,
            len > 0 ==> (start == 0 || s[start - 1] <= 1),
            len > 0 ==> forall|j: int| start <= j < i ==> s[j] > 1,
            len == 0 ==> (i == 0 || s[i - 1] <= 1),
            forall|k: int| 0 <= k < runs@.len() ==>
                etendue_plate(s, (#[trigger] runs@[k]).0 as int, runs@[k].1 as int)
                && runs@[k].1 > FLAT_RUN
                && runs@[k].0 + runs@[k].1 < i,
            forall|k1: int, k2: int| 0 <= k1 < k2 < runs@.len() ==>
                (#[trigger] runs@[k1]).0 < (#[trigger] runs@[k2]).0,
            len > 0 ==> forall|k: int| 0 <= k < runs@.len() ==> (#[trigger] runs@[k]).0 < start,
            forall|a: int, l: int| etendue_plate(s, a, l) && l > FLAT_RUN && a + l < i ==>
                exists|k: int| 0 <= k < runs@.len() && #[trigger] runs@[k] == (a as usize, l as usize),
        decreases n - i,
    {
        let ghost runs_avant = runs@;
        if slot_counts[i] <= 1 {
            if len > FLAT_RUN {
                runs.push((start, len));
                proof {
                    assert(runs@[runs@.len() - 1] == (start, len));
                    assert forall|k: int| 0 <= k < runs_avant.len() implies runs@[k] == runs_avant[k] by {}
                }
            }
            proof {
                assert forall|a: int, l: int| etendue_plate(s, a, l) && l > FLAT_RUN && a + l < i + 1 implies
                    exists|k: int| 0 <= k < runs@.len() && #[trigger] runs@[k] == (a as usize, l as usize) by {
                    if a + l < i {
                        let k = choose|k: int| 0 <= k < runs_avant.len() && runs_avant[k] == (a as usize, l as usize);
                        assert(runs@[k] == runs_avant[k]);
                    } else {
                        assert(s[a + l - 1] > 1);
                        assert(len > 0);
                        if a < start {
                            assert(s[start - 1] > 1);
                        } else if a > start {
                            assert(s[a - 1] > 1);
                        }
                        assert(runs@[runs@.len() - 1] == (a as usize, l as usize));
                    }
                }
            }
            len = 0;
        } else {
            if len == 0 {
                start = i;
            }
            len = len + 1;
            proof {
                assert forall|a: int, l: int| etendue_plate(s, a, l) && l > FLAT_RUN && a + l < i + 1 implies
                    exists|k: int| 0 <= k < runs@.len() && #[trigger] runs@[k] == (a as usize, l as usize) by {
                    if a + l == i {
                        assert(s[a + l] > 1);
                    }
                }
            }
        }
        i = i + 1;
    }
    if len > FLAT_RUN {
        let ghost runs_avant = runs@;
        runs.push((start, len));
        proof {
            assert forall|k: int| 0 <= k < runs_avant.len() implies runs@[k] == runs_avant[k] by {}
        }
    }
    proof {
        assert forall|a: int, l: int| etendue_plate(s, a, l) && l > FLAT_RUN implies
            exists|k: int| 0 <= k < runs@.len() && #[trigger] runs@[k] == (a as usize, l as usize) by {
            if a + l == n {
                assert(s[a + l - 1] > 1);
                assert(len > 0);
                if a < start {
                    assert(s[start - 1] > 1);
                } else if a > start {
                    assert(s[a - 1] > 1);
                }
                assert(runs@[runs@.len() - 1] == (a as usize, l as usize));
            }
        }
    }
    runs
}

// --- Repeated families ---------------------------------------------------------

/// The suffix a verso variant carries.
pub open spec fn suffixe_verso() -> Seq<char> {
    seq!['_', 'v', 'e', 'r', 's', 'o']
}

/// A template's family: its name with every trailing `_verso` removed
/// (`trim_end_matches("_verso")`), so that a layout and its mirror count as
/// one.
pub open spec fn famille(t: Seq<char>) -> Seq<char>
    decreases t.len(),
{
    if t.len() >= 6 && t.subrange(t.len() - 6, t.len() as int) == suffixe_verso() {
        famille(t.subrange(0, t.len() - 6))
    } else {
        t
    }
}

/// The family of a template name.
pub fn famille_de(template: &str) -> (f: String)
    ensures
        f@ == famille(template@),
{
    let v = caracteres(template);
    let mut fin: usize = v.len();
    assert(v@.subrange(0, fin as int) =~= v@);
    while fin >= 6 && v[fin - 6] == '_' && v[fin - 5] == 'v' && v[fin - 4] == 'e'
        && v[fin - 3] == 'r' && v[fin - 2] == 's' && v[fin - 1] == 'o'
        invariant
            fin <= v@.len(),
            famille(v@) == famille(v@.subrange(0, fin as int)),
        decreases fin,
    {
        proof {
            let t = v@.subrange(0, fin as int);
            assert(t.subrange(t.len() - 6, t.len() as int) =~= suffixe_verso());
            assert(t.subrange(0, t.len() - 6) =~= v@.subrange(0, fin - 6));
        }
        fin = fin - 6;
    }
    proof {
        let t = v@.subrange(0, fin as int);
        if t.len() >= 6 && t.subrange(t.len() - 6, t.len() as int) == suffixe_verso() {
            assert(t.subrange(t.len() - 6, t.len() as int)[0] == v@[fin - 6]);
            assert(t.subrange(t.len() - 6, t.len() as int)[1] == v@[fin - 5]);
            assert(t.subrange(t.len() - 6, t.len() as int)[2] == v@[fin - 4]);
            assert(t.subrange(t.len() - 6, t.len() as int)[3] == v@[fin - 3]);
            assert(t.subrange(t.len() - 6, t.len() as int)[4] == v@[fin - 2]);
            assert(t.subrange(t.len() - 6, t.len() as int)[5] == v@[fin - 1]);
        }
    }
    let mut r: Vec<char> = Vec::new();
    let mut k: usize = 0;
    while k < fin
        invariant
            fin <= v@.len(),
            k <= fin,
            r@ == v@.subrange(0, k as int),
        decreases fin - k,
    {
        r.push(v[k]);
        k = k + 1;
        assert(r@ =~= v@.subrange(0, k as int));
    }
    chaine(&r)
}

/// `[a, a + l)` is a whole run of spreads of one family, bounded by another
/// family or the book's edge on both sides.
pub open spec fn etendue_repetee(f: Seq<Seq<char>>, a: int, l: int) -> bool {
    &&& 0 <= a
    &&& 1 <= l
    &&& a + l <= f.len()
    &&& forall|j: int| a <= j < a + l ==> f[j] == f[a]
    &&& (a == 0 || f[a - 1] != f[a])
    &&& (a + l == f.len() || f[a + l] != f[a])
}

/// The families of a list of templates.
pub open spec fn familles(templates: Seq<&str>) -> Seq<Seq<char>> {
    Seq::new(templates.len(), |i: int| famille(templates[i]@))
}

/// `runs` are the runs of [`REPEAT_RUN`] or more spreads of one family in
/// `f`, each once, as `(first spread, length, family)`, in book order.
pub open spec fn etendues_repetees(f: Seq<Seq<char>>, runs: Seq<(usize, usize, String)>) -> bool {
    &&& forall|k: int| 0 <= k < runs.len() ==>
            etendue_repetee(f, (#[trigger] runs[k]).0 as int, runs[k].1 as int)
            && runs[k].1 >= REPEAT_RUN
            && runs[k].2@ == f[runs[k].0 as int]
    &&& forall|k1: int, k2: int| 0 <= k1 < k2 < runs.len() ==>
            (#[trigger] runs[k1]).0 < (#[trigger] runs[k2]).0
    &&& forall|a: int, l: int| #[trigger] etendue_repetee(f, a, l) && l >= REPEAT_RUN ==>
            exists|k: int| 0 <= k < runs.len() && (#[trigger] runs[k]).0 == a && runs[k].1 == l
}

/// Every run of [`REPEAT_RUN`] or more spreads of the same family, as
/// `(first spread, length, family)`, in book order. A verso variant belongs
/// to its recto's family.
pub fn repeat_runs(templates: &[&str]) -> (runs: Vec<(usize, usize, String)>)
    ensures
        etendues_repetees(familles(templates@), runs@),
{
    let ghost f = familles(templates@);
    let n = templates.len();
    let mut fams: Vec<Vec<char>> = Vec::new();
    let mut q: usize = 0;
    while q < n
        invariant
            n == templates@.len(),
            f == familles(templates@),
            q <= n,
            fams@.len() == q,
            forall|j: int| 0 <= j < q ==> (#[trigger] fams@[j])@ == f[j],
        decreases n - q,
    {
        let fq = famille_de(templates[q]);
        fams.push(caracteres(fq.as_str()));
        q = q + 1;
    }
    let mut runs: Vec<(usize, usize, String)> = Vec::new();
    if n == 0 {
        return runs;
    }
    let mut start: usize = 0;
    let mut i: usize = 1;
    while i <= n
        invariant_except_break
            start < i,
        invariant
            n == templates@.len(),
            n == f.len(),
            n >= 1,
            f == familles(templates@),
            fams@.len() == n,
            forall|j: int| 0 <= j < n ==> (#[trigger] fams@[j])@ == f[j],
            1 <= i <= n,
            start <= n,
            forall|j: int| start <= j < i && j < n ==> f[j] == f[start as int],
            start < n ==> (start == 0 || f[start - 1] != f[start as int]),
            forall|k: int| 0 <= k < runs@.len() ==>
                etendue_repetee(f, (#[trigger] runs@[k]).0 as int, runs@[k].1 as int)
                && runs@[k].1 >= REPEAT_RUN
                && runs@[k].2@ == famille(templates@[runs@[k].0 as int]@)
                && runs@[k].0 + runs@[k].1 <= start,
            forall|k1: int, k2: int| 0 <= k1 < k2 < runs@.len() ==>
                (#[trigger] runs@[k1]).0 < (#[trigger] runs@[k2]).0,
            forall|a: int, l: int| #[trigger] etendue_repetee(f, a, l) && l >= REPEAT_RUN && a + l <= start ==>
                exists|k: int| 0 <= k < runs@.len() && (#[trigger] runs@[k]).0 == a && runs@[k].1 == l,
        ensures
            start == n,
        decreases n + 1 - i,
    {
        let same = i < n && egales(&fams[i], &fams[start]);
        if !same {
            let len = i - start;
            let ghost runs_avant = runs@;
            if len >= REPEAT_RUN {
                let nom = chaine(&fams[start]);
                runs.push((start, len, nom));
                proof {
                    assert forall|k: int| 0 <= k < runs_avant.len() implies runs@[k] == runs_avant[k] by {}
                    assert(runs@[runs@.len() - 1].0 == start);
                }
            }
            proof {
                assert forall|a: int, l: int| #[trigger] etendue_repetee(f, a, l) && l >= REPEAT_RUN && a + l <= i implies
                    exists|k: int| 0 <= k < runs@.len() && (#[trigger] runs@[k]).0 == a && runs@[k].1 == l by {
                    if a + l <= start {
                        let k = choose|k: int| 0 <= k < runs_avant.len() && runs_avant[k].0 == a && runs_avant[k].1 == l;
                        assert(runs@[k] == runs_avant[k]);
                    } else {
                        if a < start {
                            assert(f[start - 1] == f[a]);
                            assert(f[start as int] == f[a]);
                        } else if a > start {
                            assert(f[a - 1] == f[start as int]);
                            assert(f[a] == f[start as int]);
                        }
                        if a + l < i {
                            assert(f[a + l] == f[start as int]);
                        }
                        assert(runs@[runs@.len() - 1].0 == a);
                    }
                }
            }
            start = i;
        }
        if i == n {
            break;
        }
        i = i + 1;
    }
    runs
}

// --- Chapters -------------------------------------------------------------------

/// `r` cuts a book whose spreads carry these captions into its chapters,
/// as `[first, end)` ranges in book order: one opens on every captioned
/// spread, and on the first spread whatever it carries.
pub open spec fn chapitres_de(captions: Seq<bool>, r: Seq<(usize, usize)>) -> bool {
    &&& captions.len() == 0 ==> r.len() == 0
    &&& captions.len() > 0 ==> r.len() >= 1 && r[0].0 == 0 && r[r.len() - 1].1 == captions.len()
    &&& forall|k: int| 0 <= k < r.len() ==> (#[trigger] r[k]).0 < r[k].1
    &&& forall|k: int| 0 <= k < r.len() - 1 ==> (#[trigger] r[k]).1 == r[k + 1].0
    &&& forall|k: int| 1 <= k < r.len() ==> captions[(#[trigger] r[k]).0 as int]
    &&& forall|k: int, j: int| 0 <= k < r.len() && (#[trigger] r[k]).0 < j < r[k].1 ==> !(#[trigger] captions[j])
}

/// The chapters of a book, as `[first, end)` spread ranges: a chapter opens
/// on every spread that carries a chapter caption, and on the first spread
/// whatever it carries.
pub fn chapter_ranges(captions: &[bool]) -> (r: Vec<(usize, usize)>)
    ensures
        chapitres_de(captions@, r@),
{
    let n = captions.len();
    let mut r: Vec<(usize, usize)> = Vec::new();
    if n == 0 {
        return r;
    }
    let mut debut: usize = 0;
    let mut i: usize = 1;
    while i < n
        invariant
            n == captions@.len(),
            1 <= i <= n,
            debut < i,
            debut == 0 || captions@[debut as int],
            forall|j: int| debut < j < i ==> !captions@[j],
            r@.len() == 0 ==> debut == 0,
            r@.len() > 0 ==> r@[0].0 == 0 && r@[r@.len() - 1].1 == debut,
            forall|k: int| 0 <= k < r@.len() ==> (#[trigger] r@[k]).0 < r@[k].1,
            forall|k: int| 0 <= k < r@.len() - 1 ==> (#[trigger] r@[k]).1 == r@[k + 1].0,
            forall|k: int| 1 <= k < r@.len() ==> captions@[(#[trigger] r@[k]).0 as int],
            forall|k: int, j: int| 0 <= k < r@.len() && (#[trigger] r@[k]).0 < j < r@[k].1 ==> !(#[trigger] captions@[j]),
        decreases n - i,
    {
        if captions[i] {
            let ghost avant_v = r@;
            r.push((debut, i));
            proof {
                assert forall|k: int| 0 <= k < avant_v.len() implies r@[k] == avant_v[k] by {}
            }
            debut = i;
        }
        i = i + 1;
    }
    let ghost avant_v = r@;
    r.push((debut, n));
    proof {
        assert forall|k: int| 0 <= k < avant_v.len() implies r@[k] == avant_v[k] by {}
    }
    r
}


// --- The report -------------------------------------------------------------------

/// One defect the linter found.
#[derive(Debug, Clone)]
pub struct Finding {
    /// 1-based spread index, as the ruler shows it.
    pub planche: usize,
    pub case_idx: Option<usize>,
    pub src: Option<String>,
    pub info: String,
}

/// A finding as plain values: spread, cell, photo and what was found.
pub open spec fn vue_constat(f: Finding) -> (usize, Option<usize>, Option<Seq<char>>, Seq<char>) {
    (f.planche, f.case_idx, vue_option(f.src), f.info@)
}

pub open spec fn vues_constats(v: Seq<Finding>) -> Seq<(usize, Option<usize>, Option<Seq<char>>, Seq<char>)> {
    Seq::new(v.len(), |i: int| vue_constat(v[i]))
}

/// One defect class: what was found, and how many of them the album may
/// carry before humans see it.
#[derive(Debug, Clone)]
pub struct Counter {
    pub count: usize,
    pub seuil: usize,
    /// A hard counter must be exactly zero before humans see the album.
    pub dur: bool,
    pub details: Vec<Finding>,
}

/// `c` counts `details` against `seuil`.
pub open spec fn compteur_est(c: Counter, seuil: usize, dur: bool, details: Seq<Finding>) -> bool {
    c.count == details.len() && c.seuil == seuil && c.dur == dur && c.details@ == details
}

/// The counter is within its threshold.
pub open spec fn passe(c: Counter) -> bool {
    c.count <= c.seuil
}

impl Counter {
    pub fn new(seuil: usize, dur: bool, details: Vec<Finding>) -> (c: Self)
        ensures
            compteur_est(c, seuil, dur, details@),
    {
        Counter { count: details.len(), seuil, dur, details }
    }

    /// Whether the album may carry this many of these defects.
    pub fn passes(&self) -> (b: bool)
        ensures
            b == passe(*self),
    {
        self.count <= self.seuil
    }
}

/// Every defect class, in report order.
#[derive(Debug, Clone)]
pub struct Counters {
    pub visage_coupe: Counter,
    pub orientation_trahie: Counter,
    pub doublon_planche: Counter,
    pub sous_resolution: Counter,
    pub chapitre_orphelin: Counter,
    pub ouverture_faible: Counter,
    pub rythme_plat: Counter,
    pub legende_manquante: Counter,
    pub legende_sur_photo: Counter,
    pub repetition_gabarit: Counter,
}

/// Every counter is within its threshold.
pub open spec fn tous_passent(c: Counters) -> bool {
    &&& passe(c.visage_coupe)
    &&& passe(c.orientation_trahie)
    &&& passe(c.doublon_planche)
    &&& passe(c.sous_resolution)
    &&& passe(c.chapitre_orphelin)
    &&& passe(c.ouverture_faible)
    &&& passe(c.rythme_plat)
    &&& passe(c.legende_manquante)
    &&& passe(c.legende_sur_photo)
    &&& passe(c.repetition_gabarit)
}

impl Counters {
    /// Whether every counter is within its threshold.
    pub fn passent(&self) -> (b: bool)
        ensures
            b == tous_passent(*self),
    {
        self.visage_coupe.passes() && self.orientation_trahie.passes() && self.doublon_planche.passes()
            && self.sous_resolution.passes() && self.chapitre_orphelin.passes()
            && self.ouverture_faible.passes() && self.rythme_plat.passes()
            && self.legende_manquante.passes() && self.legende_sur_photo.passes()
            && self.repetition_gabarit.passes()
    }
}

/// The linter's verdict on one album folder.
#[derive(Debug, Clone)]
pub struct AuditReport {
    pub album: String,
    pub planches: usize,
    pub ok: bool,
    pub notes: Vec<String>,
    pub compteurs: Counters,
}

/// One photograph of a spread, as its thumbnail measured.
#[derive(Debug, Clone)]
pub struct CaseAuditee {
    pub src: String,
    pub dhash: u64,
    pub colorsig: [u8; 12],
}

/// One spread, as the linter reads it.
#[derive(Debug, Clone)]
pub struct PlancheAuditee {
    pub template: String,
    /// The spread carries a chapter caption.
    pub legende: bool,
    pub cases: Vec<CaseAuditee>,
}

/// What the linter found by looking at pixels and cell geometry: faces a
/// crop cut, orientations a cell betrays, cells that print soft, weak
/// chapter openings, captions with nowhere left to sit.
#[derive(Debug, Clone)]
pub struct Mesures {
    pub visage_coupe: Vec<Finding>,
    pub orientation_trahie: Vec<Finding>,
    pub sous_resolution: Vec<Finding>,
    pub ouverture_faible: Vec<Finding>,
    pub legende_sur_photo: Vec<Finding>,
}

/// Near-duplicates: cells `i` and `j` of spread `si` whose hashes differ by
/// at most [`DUP_HAMMING`] bits.
pub open spec fn constat_doublon(si: int, i: int, j: int, a: CaseAuditee, b: CaseAuditee)
    -> (usize, Option<usize>, Option<Seq<char>>, Seq<char>)
{
    (
        (si + 1) as usize,
        Some(i as usize),
        Some(b.src@),
        "cases "@ + decimal(i as nat) + " et "@ + decimal(j as nat) + " à "@
            + decimal(bits_a_un(a.dhash ^ b.dhash)) + " bits (couleur "@
            + decimal(ecarts(a.colorsig@, b.colorsig@, 12) / 12) + ")"@,
    )
}

pub open spec fn proches(a: CaseAuditee, b: CaseAuditee) -> bool {
    bits_a_un(a.dhash ^ b.dhash) <= DUP_HAMMING
}

/// The near-duplicates of cell `i` among the cells after it and before `j`.
pub open spec fn doublons_de_case(si: int, cs: Seq<CaseAuditee>, i: int, j: int)
    -> Seq<(usize, Option<usize>, Option<Seq<char>>, Seq<char>)>
    decreases j - i,
{
    if j <= i + 1 {
        Seq::empty()
    } else if proches(cs[i], cs[j - 1]) {
        doublons_de_case(si, cs, i, j - 1).push(constat_doublon(si, i, j - 1, cs[i], cs[j - 1]))
    } else {
        doublons_de_case(si, cs, i, j - 1)
    }
}

/// The near-duplicates of a spread whose first cell is before `i`.
pub open spec fn doublons_jusqua(si: int, cs: Seq<CaseAuditee>, i: int)
    -> Seq<(usize, Option<usize>, Option<Seq<char>>, Seq<char>)>
    decreases i,
{
    if i <= 0 {
        Seq::empty()
    } else {
        doublons_jusqua(si, cs, i - 1) + doublons_de_case(si, cs, i - 1, cs.len() as int)
    }
}

/// Every near-duplicate pair on one spread, spread by spread, pair by pair.
pub open spec fn doublons_des_planches(ps: Seq<PlancheAuditee>)
    -> Seq<(usize, Option<usize>, Option<Seq<char>>, Seq<char>)>
    decreases ps.len(),
{
    if ps.len() == 0 {
        Seq::empty()
    } else {
        doublons_des_planches(ps.drop_last())
            + doublons_jusqua(ps.len() - 1, ps.last().cases@, ps.last().cases@.len() as int)
    }
}

/// A chapter of a single spread.
pub open spec fn constat_orphelin(debut: usize) -> (usize, Option<usize>, Option<Seq<char>>, Seq<char>) {
    ((debut + 1) as usize, None, None, "chapitre d'une seule planche"@)
}

/// The chapters of a single spread, in book order.
pub open spec fn orphelins_de(ch: Seq<(usize, usize)>) -> Seq<(usize, Option<usize>, Option<Seq<char>>, Seq<char>)>
    decreases ch.len(),
{
    if ch.len() == 0 {
        Seq::empty()
    } else if ch.last().1 == ch.last().0 + 1 {
        orphelins_de(ch.drop_last()).push(constat_orphelin(ch.last().0))
    } else {
        orphelins_de(ch.drop_last())
    }
}

pub open spec fn constat_plat(run: (usize, usize)) -> (usize, Option<usize>, Option<Seq<char>>, Seq<char>) {
    ((run.0 + 1) as usize, None, None, decimal(run.1 as nat) + " planches consécutives sans page de respiration"@)
}

pub open spec fn constat_repete(run: (usize, usize, String)) -> (usize, Option<usize>, Option<Seq<char>>, Seq<char>) {
    ((run.0 + 1) as usize, None, None, "gabarit "@ + run.2@ + " répété "@ + decimal(run.1 as nat) + " fois"@)
}

/// An album that opens without a chapter caption.
pub open spec fn constats_d_ouverture(ps: Seq<PlancheAuditee>) -> Seq<(usize, Option<usize>, Option<Seq<char>>, Seq<char>)> {
    if ps.len() > 0 && !ps[0].legende {
        seq![(1usize, None, None, "l'album s'ouvre sans légende de chapitre"@)]
    } else {
        Seq::empty()
    }
}

pub open spec fn comptes_de(ps: Seq<PlancheAuditee>) -> Seq<usize> {
    Seq::new(ps.len(), |i: int| ps[i].cases@.len() as usize)
}

pub open spec fn legendes_de(ps: Seq<PlancheAuditee>) -> Seq<bool> {
    Seq::new(ps.len(), |i: int| ps[i].legende)
}

pub open spec fn familles_des(ps: Seq<PlancheAuditee>) -> Seq<Seq<char>> {
    Seq::new(ps.len(), |i: int| famille(ps[i].template@))
}

/// What the counters of an album are: the measured defect lists as they
/// came, and the counts that need no pixel worked out from the spreads.
pub open spec fn compteurs_de(ps: Seq<PlancheAuditee>, m: Mesures, c: Counters) -> bool {
    &&& compteur_est(c.visage_coupe, 0, true, m.visage_coupe@)
    &&& compteur_est(c.orientation_trahie, 0, true, m.orientation_trahie@)
    &&& compteur_est(c.doublon_planche, 0, true, c.doublon_planche.details@)
    &&& vues_constats(c.doublon_planche.details@) == doublons_des_planches(ps)
    &&& compteur_est(c.sous_resolution, 3, false, m.sous_resolution@)
    &&& compteur_est(c.chapitre_orphelin, 1, false, c.chapitre_orphelin.details@)
    &&& exists|ch: Seq<(usize, usize)>| chapitres_de(legendes_de(ps), ch)
        && vues_constats(c.chapitre_orphelin.details@) == orphelins_de(ch)
    &&& compteur_est(c.ouverture_faible, 0, true, m.ouverture_faible@)
    &&& compteur_est(c.rythme_plat, 1, false, c.rythme_plat.details@)
    &&& exists|runs: Seq<(usize, usize)>| etendues_plates(comptes_de(ps), runs)
        && vues_constats(c.rythme_plat.details@) == Seq::new(runs.len(), |k: int| constat_plat(runs[k]))
    &&& compteur_est(c.legende_manquante, 0, true, c.legende_manquante.details@)
    &&& vues_constats(c.legende_manquante.details@) == constats_d_ouverture(ps)
    &&& compteur_est(c.legende_sur_photo, 0, true, m.legende_sur_photo@)
    &&& compteur_est(c.repetition_gabarit, 1, false, c.repetition_gabarit.details@)
    &&& exists|runs: Seq<(usize, usize, String)>| etendues_repetees(familles_des(ps), runs)
        && vues_constats(c.repetition_gabarit.details@) == Seq::new(runs.len(), |k: int| constat_repete(runs[k]))
}

/// Cells `i` and `j` of spread `si`, as the near-duplicate finding names them.
fn constat_de_doublon(si: usize, i: usize, j: usize, a: &CaseAuditee, b: &CaseAuditee) -> (f: Finding)
    requires
        si < usize::MAX,
    ensures
        vue_constat(f) == constat_doublon(si as int, i as int, j as int, *a, *b),
{
    let d = hamming(a.dhash, b.dhash);
    let c = color_distance(&a.colorsig, &b.colorsig);
    let t1 = concat(caracteres("cases ").as_slice(), en_decimal(i as u64).as_slice());
    let t2 = concat(t1.as_slice(), caracteres(" et ").as_slice());
    let t3 = concat(t2.as_slice(), en_decimal(j as u64).as_slice());
    let t4 = concat(t3.as_slice(), caracteres(" à ").as_slice());
    let t5 = concat(t4.as_slice(), en_decimal(d as u64).as_slice());
    let t6 = concat(t5.as_slice(), caracteres(" bits (couleur ").as_slice());
    let t7 = concat(t6.as_slice(), en_decimal(c as u64).as_slice());
    let t8 = concat(t7.as_slice(), caracteres(")").as_slice());
    let src = b.src.clone();
    let f = Finding { planche: si + 1, case_idx: Some(i), src: Some(src), info: chaine(t8.as_slice()) };
    proof {
        assert(t8@ =~= constat_doublon(si as int, i as int, j as int, *a, *b).3);
    }
    f
}

/// Every pair of photographs on one spread close enough to read as the same
/// picture, spread by spread.
pub fn doublons(planches: &[PlancheAuditee]) -> (r: Vec<Finding>)
    ensures
        vues_constats(r@) == doublons_des_planches(planches@),
{
    let mut r: Vec<Finding> = Vec::new();
    let mut si: usize = 0;
    assert(planches@.take(0) =~= Seq::<PlancheAuditee>::empty());
    assert(vues_constats(r@) =~= Seq::<(usize, Option<usize>, Option<Seq<char>>, Seq<char>)>::empty());
    let np = planches.len();
    while si < np
        invariant
            np == planches@.len(),
            si <= planches@.len(),
            vues_constats(r@) == doublons_des_planches(planches@.take(si as int)),
        decreases planches.len() - si,
    {
        let cs = &planches[si].cases;
        let n = cs.len();
        let ghost avant = doublons_des_planches(planches@.take(si as int));
        let mut i: usize = 0;
        assert(avant + doublons_jusqua(si as int, cs@, 0) =~= avant);
        while i < n
            invariant
                si < np,
                np == planches@.len(),
                *cs == planches@[si as int].cases,
                n == cs@.len(),
                i <= n,
                avant == doublons_des_planches(planches@.take(si as int)),
                vues_constats(r@) == avant + doublons_jusqua(si as int, cs@, i as int),
            decreases n - i,
        {
            let ghost base = avant + doublons_jusqua(si as int, cs@, i as int);
            let mut j: usize = i + 1;
            assert(base + doublons_de_case(si as int, cs@, i as int, j as int) =~= base);
            while j < n
                invariant
                    si < np,
                    np == planches@.len(),
                    *cs == planches@[si as int].cases,
                    n == cs@.len(),
                    i < j <= n,
                    base == avant + doublons_jusqua(si as int, cs@, i as int),
                    vues_constats(r@) == base + doublons_de_case(si as int, cs@, i as int, j as int),
                decreases n - j,
            {
                let d = hamming(cs[i].dhash, cs[j].dhash);
                if d <= DUP_HAMMING {
                    let f = constat_de_doublon(si, i, j, &cs[i], &cs[j]);
                    let ghost vr = vues_constats(r@);
                    r.push(f);
                    assert(vues_constats(r@) =~= vr.push(vue_constat(f)));
                }
                j = j + 1;
                assert(vues_constats(r@) =~= base + doublons_de_case(si as int, cs@, i as int, j as int));
            }
            i = i + 1;
            assert(vues_constats(r@) =~= avant + doublons_jusqua(si as int, cs@, i as int));
        }
        proof {
            let t = planches@.take(si as int + 1);
            assert(t.drop_last() =~= planches@.take(si as int));
            assert(t.last() == planches@[si as int]);
        }
        si = si + 1;
    }
    assert(planches@.take(si as int) =~= planches@);
    r
}

/// The chapters of a single spread, each as a finding on its spread.
pub fn orphelins(chapitres: &[(usize, usize)]) -> (r: Vec<Finding>)
    ensures
        vues_constats(r@) == orphelins_de(chapitres@),
{
    let mut r: Vec<Finding> = Vec::new();
    let mut k: usize = 0;
    assert(chapitres@.take(0) =~= Seq::<(usize, usize)>::empty());
    assert(vues_constats(r@) =~= Seq::<(usize, Option<usize>, Option<Seq<char>>, Seq<char>)>::empty());
    while k < chapitres.len()
        invariant
            k <= chapitres@.len(),
            vues_constats(r@) == orphelins_de(chapitres@.take(k as int)),
        decreases chapitres.len() - k,
    {
        let (debut, fin) = chapitres[k];
        proof {
            let t = chapitres@.take(k as int + 1);
            assert(t.drop_last() =~= chapitres@.take(k as int));
            assert(t.last() == chapitres@[k as int]);
        }
        if debut < fin && fin - debut == 1 {
            let ghost vr = vues_constats(r@);
            let f = Finding { planche: fin, case_idx: None, src: None, info: chaine(caracteres("chapitre d'une seule planche").as_slice()) };
            r.push(f);
            assert(vues_constats(r@) =~= vr.push(constat_orphelin(debut)));
        }
        k = k + 1;
    }
    assert(chapitres@.take(k as int) =~= chapitres@);
    r
}

/// Each stretch without a breathing page, as a finding on its first spread.
pub fn constats_plats(runs: &[(usize, usize)]) -> (r: Vec<Finding>)
    requires
        forall|k: int| 0 <= k < runs@.len() ==> (#[trigger] runs@[k]).0 < usize::MAX,
    ensures
        vues_constats(r@) == Seq::new(runs@.len(), |k: int| constat_plat(runs@[k])),
{
    let mut r: Vec<Finding> = Vec::new();
    let mut k: usize = 0;
    while k < runs.len()
        invariant
            k <= runs@.len(),
            forall|q: int| 0 <= q < runs@.len() ==> (#[trigger] runs@[q]).0 < usize::MAX,
            vues_constats(r@) == Seq::new(k as nat, |q: int| constat_plat(runs@[q])),
        decreases runs.len() - k,
    {
        let (debut, l) = runs[k];
        let t = concat(en_decimal(l as u64).as_slice(), caracteres(" planches consécutives sans page de respiration").as_slice());
        let f = Finding { planche: debut + 1, case_idx: None, src: None, info: chaine(t.as_slice()) };
        let ghost vr = vues_constats(r@);
        r.push(f);
        assert(vues_constats(r@) =~= vr.push(constat_plat(runs@[k as int])));
        k = k + 1;
        assert(vues_constats(r@) =~= Seq::new(k as nat, |q: int| constat_plat(runs@[q])));
    }
    r
}

/// Each run of one template family, as a finding on its first spread.
pub fn constats_repetes(runs: &[(usize, usize, String)]) -> (r: Vec<Finding>)
    requires
        forall|k: int| 0 <= k < runs@.len() ==> (#[trigger] runs@[k]).0 < usize::MAX,
    ensures
        vues_constats(r@) == Seq::new(runs@.len(), |k: int| constat_repete(runs@[k])),
{
    let mut r: Vec<Finding> = Vec::new();
    let mut k: usize = 0;
    while k < runs.len()
        invariant
            k <= runs@.len(),
            forall|q: int| 0 <= q < runs@.len() ==> (#[trigger] runs@[q]).0 < usize::MAX,
            vues_constats(r@) == Seq::new(k as nat, |q: int| constat_repete(runs@[q])),
        decreases runs.len() - k,
    {
        let debut = runs[k].0;
        let l = runs[k].1;
        let t1 = concat(caracteres("gabarit ").as_slice(), caracteres(runs[k].2.as_str()).as_slice());
        let t2 = concat(t1.as_slice(), caracteres(" répété ").as_slice());
        let t3 = concat(t2.as_slice(), en_decimal(l as u64).as_slice());
        let t4 = concat(t3.as_slice(), caracteres(" fois").as_slice());
        let f = Finding { planche: debut + 1, case_idx: None, src: None, info: chaine(t4.as_slice()) };
        let ghost vr = vues_constats(r@);
        r.push(f);
        assert(vues_constats(r@) =~= vr.push(constat_repete(runs@[k as int])));
        k = k + 1;
        assert(vues_constats(r@) =~= Seq::new(k as nat, |q: int| constat_repete(runs@[q])));
    }
    r
}

/// The counters of an album: the measured defect lists as the application
/// found them, and everything that needs no pixel worked out here.
pub fn compteurs(planches: &[PlancheAuditee], mesures: Mesures) -> (c: Counters)
    ensures
        compteurs_de(planches@, mesures, c),
{
    let ghost ps = planches@;
    let n = planches.len();
    let mut counts: Vec<usize> = Vec::new();
    let mut legendes: Vec<bool> = Vec::new();
    let mut templates: Vec<&str> = Vec::new();
    let mut i: usize = 0;
    while i < n
        invariant
            n == planches@.len(),
            i <= n,
            counts@ == comptes_de(planches@).take(i as int),
            legendes@ == legendes_de(planches@).take(i as int),
            templates@.len() == i,
            forall|q: int| 0 <= q < i ==> (#[trigger] templates@[q])@ == planches@[q].template@,
        decreases n - i,
    {
        counts.push(planches[i].cases.len());
        legendes.push(planches[i].legende);
        templates.push(planches[i].template.as_str());
        i = i + 1;
        assert(counts@ =~= comptes_de(planches@).take(i as int));
        assert(legendes@ =~= legendes_de(planches@).take(i as int));
    }
    assert(counts@ =~= comptes_de(planches@));
    assert(legendes@ =~= legendes_de(planches@));
    assert(familles(templates@) =~= familles_des(planches@));

    let doublon_planche = Counter::new(0, true, doublons(planches));
    let chapitres = chapter_ranges(legendes.as_slice());
    proof {
        assert forall|k: int| 0 <= k < chapitres@.len() implies (#[trigger] chapitres@[k]).0 < usize::MAX by {}
    }
    let chapitre_orphelin = Counter::new(1, false, orphelins(chapitres.as_slice()));
    let plats = flat_runs(counts.as_slice());
    proof {
        assert forall|k: int| 0 <= k < plats@.len() implies (#[trigger] plats@[k]).0 < usize::MAX by {
            assert(etendue_plate(counts@, plats@[k].0 as int, plats@[k].1 as int));
        }
    }
    let rythme_plat = Counter::new(1, false, constats_plats(plats.as_slice()));
    let repetes = repeat_runs(templates.as_slice());
    proof {
        assert forall|k: int| 0 <= k < repetes@.len() implies (#[trigger] repetes@[k]).0 < usize::MAX by {
            assert(etendue_repetee(familles(templates@), repetes@[k].0 as int, repetes@[k].1 as int));
        }
    }
    let repetition_gabarit = Counter::new(1, false, constats_repetes(repetes.as_slice()));
    let mut manquante: Vec<Finding> = Vec::new();
    if n > 0 && !planches[0].legende {
        manquante.push(Finding {
            planche: 1,
            case_idx: None,
            src: None,
            info: chaine(caracteres("l'album s'ouvre sans légende de chapitre").as_slice()),
        });
        assert(vues_constats(manquante@) =~= constats_d_ouverture(planches@));
    } else {
        assert(vues_constats(manquante@) =~= constats_d_ouverture(planches@));
    }
    let legende_manquante = Counter::new(0, true, manquante);
    let Mesures { visage_coupe, orientation_trahie, sous_resolution, ouverture_faible, legende_sur_photo } = mesures;
    Counters {
        visage_coupe: Counter::new(0, true, visage_coupe),
        orientation_trahie: Counter::new(0, true, orientation_trahie),
        doublon_planche,
        sous_resolution: Counter::new(3, false, sous_resolution),
        chapitre_orphelin,
        ouverture_faible: Counter::new(0, true, ouverture_faible),
        rythme_plat,
        legende_manquante,
        legende_sur_photo: Counter::new(0, true, legende_sur_photo),
        repetition_gabarit,
    }
}

/// The linter's verdict on an album: its counters, and whether every one of
/// them is within its threshold.
pub fn audit(album: String, planches: &[PlancheAuditee], notes: Vec<String>, mesures: Mesures) -> (r: AuditReport)
    ensures
        r.album == album,
        r.planches == planches@.len(),
        r.notes == notes,
        compteurs_de(planches@, mesures, r.compteurs),
        r.ok == tous_passent(r.compteurs),
{
    let compteurs = compteurs(planches, mesures);
    let ok = compteurs.passent();
    AuditReport { album, planches: planches.len(), ok, notes, compteurs }
}

/// An album that opens without a chapter caption never passes.
pub proof fn loi_sans_legende_d_ouverture_l_album_echoue(ps: Seq<PlancheAuditee>, m: Mesures, c: Counters)
    requires
        compteurs_de(ps, m, c),
        ps.len() > 0,
        !ps[0].legende,
    ensures
        !tous_passent(c),
{
    assert(c.legende_manquante.details@.len() == vues_constats(c.legende_manquante.details@).len());
}

proof fn lemme_doublon_de_case(si: int, cs: Seq<CaseAuditee>, i: int, j: int, q: int)
    requires
        0 <= i < q < j,
        proches(cs[i], cs[q]),
    ensures
        doublons_de_case(si, cs, i, j).len() >= 1,
    decreases j - i,
{
    if q < j - 1 {
        lemme_doublon_de_case(si, cs, i, j - 1, q);
    }
}

proof fn lemme_doublon_jusqua(si: int, cs: Seq<CaseAuditee>, i: int, p: int, q: int)
    requires
        0 <= p < q < cs.len(),
        p < i,
        proches(cs[p], cs[q]),
    ensures
        doublons_jusqua(si, cs, i).len() >= 1,
    decreases i,
{
    if p == i - 1 {
        lemme_doublon_de_case(si, cs, p, cs.len() as int, q);
    } else {
        lemme_doublon_jusqua(si, cs, i - 1, p, q);
    }
}

proof fn lemme_doublon_des_planches(ps: Seq<PlancheAuditee>, s: int, p: int, q: int)
    requires
        0 <= s < ps.len(),
        0 <= p < q < ps[s].cases@.len(),
        proches(ps[s].cases@[p], ps[s].cases@[q]),
    ensures
        doublons_des_planches(ps).len() >= 1,
    decreases ps.len(),
{
    if s == ps.len() - 1 {
        lemme_doublon_jusqua(s, ps.last().cases@, ps.last().cases@.len() as int, p, q);
    } else {
        assert(ps.drop_last()[s] == ps[s]);
        lemme_doublon_des_planches(ps.drop_last(), s, p, q);
    }
}

/// Two photographs on one spread whose hashes lie within [`DUP_HAMMING`]
/// bits of each other read as a duplicate, and an album carrying one never
/// passes.
pub proof fn loi_un_doublon_fait_echouer(ps: Seq<PlancheAuditee>, m: Mesures, c: Counters, s: int, p: int, q: int)
    requires
        compteurs_de(ps, m, c),
        0 <= s < ps.len(),
        0 <= p < q < ps[s].cases@.len(),
        proches(ps[s].cases@[p], ps[s].cases@[q]),
    ensures
        !tous_passent(c),
{
    lemme_doublon_des_planches(ps, s, p, q);
    assert(c.doublon_planche.details@.len() == vues_constats(c.doublon_planche.details@).len());
}


/// The linter's verdict is every one of its ten counters within its
/// threshold, none excepted; and an album with a measured cut face, a
/// betrayed orientation, a weak opening or a caption over a photograph, or
/// more than three cells under the resolution floor, never passes.
pub proof fn loi_le_verdict_demande_chaque_compteur(ps: Seq<PlancheAuditee>, m: Mesures, c: Counters)
    ensures
        tous_passent(c) <==> (c.visage_coupe.count <= c.visage_coupe.seuil
            && c.orientation_trahie.count <= c.orientation_trahie.seuil
            && c.doublon_planche.count <= c.doublon_planche.seuil
            && c.sous_resolution.count <= c.sous_resolution.seuil
            && c.chapitre_orphelin.count <= c.chapitre_orphelin.seuil
            && c.ouverture_faible.count <= c.ouverture_faible.seuil
            && c.rythme_plat.count <= c.rythme_plat.seuil
            && c.legende_manquante.count <= c.legende_manquante.seuil
            && c.legende_sur_photo.count <= c.legende_sur_photo.seuil
            && c.repetition_gabarit.count <= c.repetition_gabarit.seuil),
        compteurs_de(ps, m, c) && (m.visage_coupe@.len() > 0 || m.orientation_trahie@.len() > 0
            || m.ouverture_faible@.len() > 0 || m.legende_sur_photo@.len() > 0 || m.sous_resolution@.len() > 3)
            ==> !tous_passent(c),
{
}

} // verus!
