//! The bench's verdict on the generated templates. Composing the reference
//! sets and substituting each candidate into them reads albums from disk;
//! what each candidate earned, once every set has been tried, is decided
//! here.

use vstd::prelude::*;
use crate::export::{avant, compare_avant, lemme_avant_total, lemme_avant_transitif};

verus! {

/// What the bench concludes, candidate by candidate.
#[derive(Debug, Clone)]
pub struct Classement {
    /// The names that earned their place: tried on every set, no counter
    /// raised.
    pub verts: Vec<String>,
    /// Candidates never assignable anywhere.
    pub sans_essai: usize,
    /// Candidates assignable somewhere, but not on every set.
    pub jeu_manquant: usize,
    /// Candidates a counter refused, and each one's first defect, sorted
    /// by name.
    pub recales: usize,
    pub defauts: Vec<(String, String)>,
}

/// The green candidates among the first `k`.
pub open spec fn verts_de(noms: Seq<String>, defauts: Seq<Option<String>>, essais: Seq<usize>, jeux: usize, k: int) -> Seq<Seq<char>>
    decreases k,
{
    if k <= 0 {
        Seq::empty()
    } else if defauts[k - 1] is None && essais[k - 1] > 0 && essais[k - 1] >= jeux {
        verts_de(noms, defauts, essais, jeux, k - 1).push(noms[k - 1]@)
    } else {
        verts_de(noms, defauts, essais, jeux, k - 1)
    }
}

/// The refused candidates among the first `k`, each with its defect.
pub open spec fn defauts_de(noms: Seq<String>, defauts: Seq<Option<String>>, k: int) -> Seq<(Seq<char>, Seq<char>)>
    decreases k,
{
    if k <= 0 {
        Seq::empty()
    } else {
        match defauts[k - 1] {
            Some(d) => defauts_de(noms, defauts, k - 1).push((noms[k - 1]@, d@)),
            None => defauts_de(noms, defauts, k - 1),
        }
    }
}

/// How many of the first `k` candidates raised no defect and were never
/// tried.
pub open spec fn sans_essai_de(defauts: Seq<Option<String>>, essais: Seq<usize>, k: int) -> nat
    decreases k,
{
    if k <= 0 {
        0
    } else {
        sans_essai_de(defauts, essais, k - 1) + if defauts[k - 1] is None && essais[k - 1] == 0 { 1nat } else { 0nat }
    }
}

/// How many of the first `k` candidates raised no defect and were tried on
/// some sets, but not on all `jeux`.
pub open spec fn jeu_manquant_de(defauts: Seq<Option<String>>, essais: Seq<usize>, jeux: usize, k: int) -> nat
    decreases k,
{
    if k <= 0 {
        0
    } else {
        jeu_manquant_de(defauts, essais, jeux, k - 1)
            + if defauts[k - 1] is None && essais[k - 1] > 0 && essais[k - 1] < jeux { 1nat } else { 0nat }
    }
}

pub open spec fn vues_chaines(v: Seq<String>) -> Seq<Seq<char>> {
    Seq::new(v.len(), |i: int| v[i]@)
}

pub open spec fn vues_paires(v: Seq<(String, String)>) -> Seq<(Seq<char>, Seq<char>)> {
    Seq::new(v.len(), |i: int| (v[i].0@, v[i].1@))
}

/// Sorted strictly by name.
pub open spec fn par_nom(v: Seq<(String, String)>) -> bool {
    forall|i: int, j: int| 0 <= i < j < v.len() ==> avant((#[trigger] v[i]).0@, (#[trigger] v[j]).0@)
}

/// Put a pair in its place in a list sorted by name that does not hold its
/// name.
fn ranger(v: &mut Vec<(String, String)>, e: (String, String))
    requires
        par_nom(old(v)@),
        forall|k: int| 0 <= k < old(v)@.len() ==> (#[trigger] old(v)@[k]).0@ != e.0@,
    ensures
        par_nom(final(v)@),
        vues_paires(final(v)@).to_multiset() == vues_paires(old(v)@).to_multiset().insert((e.0@, e.1@)),
{
    let mut p: usize = 0;
    while p < v.len() && compare_avant(&v[p].0, &e.0)
        invariant
            p <= v@.len(),
            forall|k: int| 0 <= k < p ==> avant((#[trigger] v@[k]).0@, e.0@),
        decreases v.len() - p,
    {
        p = p + 1;
    }
    let ghost avant_v = v@;
    proof {
        if p < avant_v.len() {
            lemme_avant_total(avant_v[p as int].0@, e.0@);
        }
    }
    let ghost x = (e.0@, e.1@);
    v.insert(p, e);
    proof {
        assert forall|i: int, j: int| 0 <= i < j < v@.len() implies avant(
            (#[trigger] v@[i]).0@,
            (#[trigger] v@[j]).0@,
        ) by {
            if j < p {
                assert(v@[i] == avant_v[i] && v@[j] == avant_v[j]);
            } else if j == p {
                assert(v@[i] == avant_v[i]);
            } else if i == p {
                assert(v@[j] == avant_v[j - 1]);
                if j - 1 > p {
                    assert(avant(avant_v[p as int].0@, avant_v[j - 1].0@));
                    lemme_avant_transitif(x.0, avant_v[p as int].0@, avant_v[j - 1].0@);
                }
            } else if i < p {
                assert(v@[i] == avant_v[i] && v@[j] == avant_v[j - 1]);
            } else {
                assert(v@[i] == avant_v[i - 1] && v@[j] == avant_v[j - 1]);
            }
        }
        assert(vues_paires(v@) =~= vues_paires(avant_v).insert(p as int, x));
        vstd::seq_lib::to_multiset_insert(vues_paires(avant_v), p as int, x);
    }
}

/// Sort the candidates once every set has been tried: a candidate a
/// counter refused is recorded with its first defect; of the others, one
/// never assignable is untried, one assignable on some sets only misses a
/// set, and one tried on every set is green.
pub fn classer(noms: &[String], defauts: &[Option<String>], essais: &[usize], jeux: usize) -> (c: Classement)
    requires
        noms@.len() == defauts@.len(),
        noms@.len() == essais@.len(),
        forall|a: int, b: int|
            0 <= a < b < noms@.len() ==> (#[trigger] noms@[a])@ != (#[trigger] noms@[b])@,
    ensures
        vues_chaines(c.verts@) == verts_de(noms@, defauts@, essais@, jeux, noms@.len() as int),
        par_nom(c.defauts@),
        vues_paires(c.defauts@).to_multiset() == defauts_de(noms@, defauts@, noms@.len() as int).to_multiset(),
        c.recales == c.defauts@.len(),
        c.sans_essai == sans_essai_de(defauts@, essais@, noms@.len() as int),
        c.jeu_manquant == jeu_manquant_de(defauts@, essais@, jeux, noms@.len() as int),
        c.recales + c.sans_essai + c.jeu_manquant + c.verts@.len() == noms@.len(),
{
    let n = noms.len();
    let mut verts: Vec<String> = Vec::new();
    let mut liste: Vec<(String, String)> = Vec::new();
    let mut sans_essai: usize = 0;
    let mut jeu_manquant: usize = 0;
    let mut i: usize = 0;
    assert(vues_chaines(verts@) =~= Seq::<Seq<char>>::empty());
    assert(vues_paires(liste@) =~= Seq::<(Seq<char>, Seq<char>)>::empty());
    assert(defauts_de(noms@, defauts@, 0) =~= Seq::<(Seq<char>, Seq<char>)>::empty());
    while i < n
        invariant
            n == noms@.len(),
            n == defauts@.len(),
            n == essais@.len(),
            i <= n,
            vues_chaines(verts@) == verts_de(noms@, defauts@, essais@, jeux, i as int),
            forall|a: int, b: int|
                0 <= a < b < noms@.len() ==> (#[trigger] noms@[a])@ != (#[trigger] noms@[b])@,
            par_nom(liste@),
            vues_paires(liste@).to_multiset() == defauts_de(noms@, defauts@, i as int).to_multiset(),
            vues_paires(liste@).len() == defauts_de(noms@, defauts@, i as int).len(),
            forall|k: int| 0 <= k < liste@.len() ==> exists|q: int| 0 <= q < i && (#[trigger] liste@[k]).0@ == (#[trigger] noms@[q])@,
            sans_essai == sans_essai_de(defauts@, essais@, i as int),
            jeu_manquant == jeu_manquant_de(defauts@, essais@, jeux, i as int),
            liste@.len() + sans_essai + jeu_manquant + verts@.len() == i,
        decreases n - i,
    {
        match &defauts[i] {
            Some(d) => {
                let ghost avant = liste@;
                proof {
                    assert forall|k: int| 0 <= k < avant.len() implies (#[trigger] avant[k]).0@ != noms@[i as int]@ by {
                        let q = choose|q: int| 0 <= q < i && (#[trigger] avant[k]).0@ == (#[trigger] noms@[q])@;
                    }
                }
                ranger(&mut liste, (noms[i].clone(), d.clone()));
                proof {
                    let ds = defauts_de(noms@, defauts@, i as int);
                    assert(defauts_de(noms@, defauts@, i as int + 1) == ds.push((noms@[i as int]@, d@)));
                    vstd::seq_lib::to_multiset_build(ds, (noms@[i as int]@, d@));
                    vstd::seq_lib::to_multiset_len(vues_paires(liste@));
                    vstd::seq_lib::to_multiset_len(vues_paires(avant));
                    vstd::seq_lib::to_multiset_len(ds);
                    assert forall|k: int| 0 <= k < liste@.len() implies exists|q: int|
                        0 <= q < i + 1 && (#[trigger] liste@[k]).0@ == (#[trigger] noms@[q])@ by {
                        let e = vues_paires(liste@)[k];
                        assert(vues_paires(liste@).contains(e));
                        vstd::seq_lib::to_multiset_contains(vues_paires(liste@), e);
                        assert(vues_paires(liste@).to_multiset().count(e) > 0);
                        if e == (noms@[i as int]@, d@) {
                            assert(liste@[k].0@ == noms@[i as int]@);
                        } else {
                            assert(vues_paires(avant).to_multiset().count(e) > 0);
                            vstd::seq_lib::to_multiset_contains(vues_paires(avant), e);
                            let k2 = choose|k2: int| 0 <= k2 < vues_paires(avant).len() && vues_paires(avant)[k2] == e;
                            let q = choose|q: int| 0 <= q < i && (#[trigger] avant[k2]).0@ == (#[trigger] noms@[q])@;
                            assert(liste@[k].0@ == noms@[q]@);
                        }
                    }
                }
            },
            None => {
                if essais[i] == 0 {
                    sans_essai = sans_essai + 1;
                } else if essais[i] < jeux {
                    jeu_manquant = jeu_manquant + 1;
                } else {
                    let ghost avant = vues_chaines(verts@);
                    verts.push(noms[i].clone());
                    assert(vues_chaines(verts@) =~= avant.push(noms@[i as int]@));
                }
            },
        }
        i = i + 1;
    }
    let recales = liste.len();
    Classement { verts, sans_essai, jeu_manquant, recales, defauts: liste }
}


// --- One candidate on one album -------------------------------------------------------

/// What substituting a candidate on one spread gave.
#[derive(Debug, Clone)]
pub enum Issue {
    /// The candidate cannot hold that spread's photographs.
    NonAssignable,
    /// Substituted, and every counter stayed green.
    Tenue,
    /// Substituted, and this counter went past its threshold.
    Refus(String),
}

/// A candidate's run over one album: whether it was substituted anywhere,
/// and the first spread (0-based) that refused it, with the counter.
#[derive(Debug, Clone)]
pub struct Essai {
    pub essaye: bool,
    pub refus: Option<(usize, String)>,
}

/// The first refusal among the first `k` spreads.
pub open spec fn premier_refus(issues: Seq<Issue>, k: int) -> Option<(int, Seq<char>)>
    decreases k,
{
    if k <= 0 {
        None
    } else {
        match premier_refus(issues, k - 1) {
            Some(r) => Some(r),
            None => match issues[k - 1] {
                Issue::Refus(c) => Some((k - 1, c@)),
                _ => None,
            },
        }
    }
}

/// Some spread among the first `k` took the candidate.
pub open spec fn tenue_avant(issues: Seq<Issue>, k: int) -> bool {
    exists|j: int| 0 <= j < k && j < issues.len() && (#[trigger] issues[j]) is Tenue
}

/// Run a candidate over an album's spreads, in book order: the first
/// refusal ends the run; a candidate refused was substituted somewhere, and
/// otherwise it was when some spread took it.
pub fn essayer(issues: &[Issue]) -> (e: Essai)
    ensures
        premier_refus(issues@, issues@.len() as int) matches Some(r) ==> e.refus matches Some(x) && x.0 == r.0
            && x.1@ == r.1 && e.essaye,
        premier_refus(issues@, issues@.len() as int) is None ==> e.refus is None && e.essaye == tenue_avant(
            issues@,
            issues@.len() as int,
        ),
{
    let n = issues.len();
    let mut essaye = false;
    let mut k: usize = 0;
    while k < n
        invariant
            n == issues@.len(),
            k <= n,
            premier_refus(issues@, k as int) is None,
            essaye == tenue_avant(issues@, k as int),
        decreases n - k,
    {
        match &issues[k] {
            Issue::Refus(c) => {
                assert(premier_refus(issues@, k as int + 1) == Some((k as int, c@)));
                proof {
                    lemme_premier_refus_stable(issues@, k as int + 1, n as int);
                }
                return Essai { essaye: true, refus: Some((k, c.clone())) };
            },
            Issue::Tenue => {
                essaye = true;
                assert(issues@[k as int] is Tenue);
            },
            Issue::NonAssignable => {
                assert forall|j: int| 0 <= j < k + 1 && j < issues@.len() && (#[trigger] issues@[j]) is Tenue implies j
                    < k by {}
            },
        }
        k = k + 1;
    }
    Essai { essaye, refus: None }
}

proof fn lemme_premier_refus_stable(issues: Seq<Issue>, k: int, m: int)
    requires
        0 <= k <= m,
        premier_refus(issues, k) is Some,
    ensures
        premier_refus(issues, m) == premier_refus(issues, k),
    decreases m - k,
{
    if k < m {
        lemme_premier_refus_stable(issues, k, m - 1);
    }
}

/// What the bench knows of one candidate between albums: the sets where it
/// was substituted, each once, and its first defect.
#[derive(Debug, Clone)]
pub struct EtatCandidat {
    pub jeux: Vec<String>,
    pub defaut: Option<String>,
}

/// `v` names the set `x`.
pub open spec fn nomme(v: Seq<String>, x: Seq<char>) -> bool {
    exists|k: int| 0 <= k < v.len() && (#[trigger] v[k])@ == x
}

/// No set named twice.
pub open spec fn distincts(v: Seq<String>) -> bool {
    forall|a: int, b: int| 0 <= a < b < v.len() ==> (#[trigger] v[a])@ != (#[trigger] v[b])@
}

impl EtatCandidat {
    /// A candidate before any album.
    pub fn new() -> (e: EtatCandidat)
        ensures
            e.jeux@.len() == 0,
            e.defaut is None,
    {
        EtatCandidat { jeux: Vec::new(), defaut: None }
    }

    /// Account for one album's run of a candidate still clean: the set
    /// joins those it was tried on when it was substituted, and a refusal
    /// becomes its defect.
    pub fn noter(&mut self, jeu: &String, essaye: bool, defaut: Option<String>)
        requires
            old(self).defaut is None,
            distincts(old(self).jeux@),
        ensures
            distincts(final(self).jeux@),
            forall|x: Seq<char>|
                #[trigger] nomme(final(self).jeux@, x) <==> (nomme(old(self).jeux@, x) || (essaye && x == jeu@)),
            final(self).defaut == defaut,
    {
        if essaye {
            let mut deja = false;
            let mut k: usize = 0;
            while k < self.jeux.len()
                invariant
                    k <= self.jeux@.len(),
                    deja == exists|q: int| 0 <= q < k && (#[trigger] self.jeux@[q])@ == jeu@,
                decreases self.jeux.len() - k,
            {
                if crate::chaines::egales(
                    crate::chaines::caracteres(self.jeux[k].as_str()).as_slice(),
                    crate::chaines::caracteres(jeu.as_str()).as_slice(),
                ) {
                    deja = true;
                }
                k = k + 1;
            }
            if !deja {
                let ghost avant = self.jeux@;
                self.jeux.push(jeu.clone());
                proof {
                    assert forall|x: Seq<char>| #[trigger] nomme(self.jeux@, x) <==> (nomme(avant, x) || x == jeu@) by {
                        if nomme(self.jeux@, x) {
                            let k = choose|k: int| 0 <= k < self.jeux@.len() && (#[trigger] self.jeux@[k])@ == x;
                            if k < avant.len() {
                                assert(avant[k] == self.jeux@[k]);
                            }
                        }
                        if nomme(avant, x) {
                            let k = choose|k: int| 0 <= k < avant.len() && (#[trigger] avant[k])@ == x;
                            assert(self.jeux@[k] == avant[k]);
                        }
                        if x == jeu@ {
                            assert(self.jeux@[avant.len() as int]@ == x);
                        }
                    }
                }
            }
        }
        self.defaut = defaut;
    }
}

} // verus!
