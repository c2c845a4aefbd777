//! Paths as text, with the Unix separator: the final component of a path,
//! the stem and the extension of a file name, and joining a component onto
//! a folder, each as `std::path` defines it.

use vstd::prelude::*;
use crate::chaines::concat;

verus! {

/// Where the last segment of `s` starts: just past its last `/`.
pub open spec fn debut_segment(s: Seq<char>) -> int
    decreases s.len(),
{
    if s.len() == 0 {
        0
    } else if s.last() == '/' {
        s.len() as int
    } else {
        debut_segment(s.drop_last())
    }
}

pub proof fn lemme_debut_segment(s: Seq<char>)
    ensures
        0 <= debut_segment(s) <= s.len(),
        forall|i: int| debut_segment(s) <= i < s.len() ==> s[i] != '/',
        debut_segment(s) > 0 ==> s[debut_segment(s) - 1] == '/',
    decreases s.len(),
{
    if s.len() > 0 && s.last() != '/' {
        lemme_debut_segment(s.drop_last());
        assert forall|i: int| debut_segment(s) <= i < s.len() implies s[i] != '/' by {
            if i < s.len() - 1 {
                assert(s[i] == s.drop_last()[i]);
            }
        }
        if debut_segment(s) > 0 {
            assert(s[debut_segment(s) - 1] == s.drop_last()[debut_segment(s) - 1]);
        }
    }
}

/// `Path::file_name`: the final component, when it is a name. Trailing
/// separators and `.` components are not components; a path that ends in
/// `..`, or holds nothing but a root or a `.`, has no file name.
pub open spec fn nom_final(s: Seq<char>) -> Option<Seq<char>>
    decreases s.len(),
{
    if s.len() == 0 {
        None
    } else if s.last() == '/' {
        nom_final(s.drop_last())
    } else {
        let k = debut_segment(s);
        let seg = s.subrange(k, s.len() as int);
        if seg == seq!['.'] {
            if k <= 0 || k >= s.len() {
                None
            } else {
                nom_final(s.subrange(0, k))
            }
        } else if seg == seq!['.', '.'] {
            None
        } else {
            Some(seg)
        }
    }
}

/// Where the last `.` of a name is.
pub open spec fn dernier_point(n: Seq<char>) -> Option<int>
    decreases n.len(),
{
    if n.len() == 0 {
        None
    } else if n.last() == '.' {
        Some(n.len() - 1)
    } else {
        dernier_point(n.drop_last())
    }
}

pub proof fn lemme_dernier_point(n: Seq<char>)
    ensures
        dernier_point(n) matches Some(p) ==> 0 <= p < n.len() && n[p] == '.' && forall|i: int|
            p < i < n.len() ==> n[i] != '.',
        dernier_point(n) is None ==> forall|i: int| 0 <= i < n.len() ==> n[i] != '.',
    decreases n.len(),
{
    if n.len() > 0 && n.last() != '.' {
        lemme_dernier_point(n.drop_last());
        let m = n.drop_last();
        assert forall|i: int| 0 <= i < m.len() implies n[i] == m[i] by {}
    }
}

/// `Path::extension` of a file name: what follows its last `.`, unless that
/// `.` opens the name.
pub open spec fn extension_du_nom(n: Seq<char>) -> Option<Seq<char>> {
    match dernier_point(n) {
        Some(p) => if p > 0 {
            Some(n.subrange(p + 1, n.len() as int))
        } else {
            None
        },
        None => None,
    }
}

/// `Path::file_stem` of a file name: what precedes its last `.`, or the
/// whole name when there is no such `.` past the first character.
pub open spec fn souche_du_nom(n: Seq<char>) -> Seq<char> {
    match dernier_point(n) {
        Some(p) => if p > 0 {
            n.subrange(0, p)
        } else {
            n
        },
        None => n,
    }
}

/// `Path::extension` of a path.
pub open spec fn extension_du_chemin(s: Seq<char>) -> Option<Seq<char>> {
    match nom_final(s) {
        Some(n) => extension_du_nom(n),
        None => None,
    }
}

/// `Path::join` of a relative component: a separator between the two unless
/// the folder is empty or already ends with one.
pub open spec fn joint(dossier: Seq<char>, composant: Seq<char>) -> Seq<char> {
    if dossier.len() == 0 || dossier.last() == '/' {
        dossier + composant
    } else {
        dossier + seq!['/'] + composant
    }
}

fn debut_du_segment(v: &[char], fin: usize) -> (r: usize)
    requires
        fin <= v@.len(),
    ensures
        r == debut_segment(v@.subrange(0, fin as int)),
{
    let mut k = fin;
    while k > 0 && v[k - 1] != '/'
        invariant
            k <= fin <= v@.len(),
            debut_segment(v@.subrange(0, fin as int)) == debut_segment(v@.subrange(0, k as int)),
        decreases k,
    {
        assert(v@.subrange(0, k as int).drop_last() =~= v@.subrange(0, k - 1));
        k = k - 1;
    }
    k
}

/// The final component of a path, as `Path::file_name` reads it.
pub fn nom_du_chemin(v: &[char]) -> (r: Option<Vec<char>>)
    ensures
        r matches Some(n) ==> nom_final(v@) == Some(n@),
        r is None ==> nom_final(v@) is None,
{
    let mut fin = v.len();
    assert(v@.subrange(0, fin as int) =~= v@);
    loop
        invariant
            fin <= v@.len(),
            nom_final(v@) == nom_final(v@.subrange(0, fin as int)),
        decreases fin,
    {
        if fin == 0 {
            return None;
        }
        let ghost s = v@.subrange(0, fin as int);
        if v[fin - 1] == '/' {
            assert(s.drop_last() =~= v@.subrange(0, fin - 1));
            fin = fin - 1;
        } else {
            let k = debut_du_segment(v, fin);
            proof {
                lemme_debut_segment(s);
            }
            let seg = crate::chaines::tranche(v, k, fin);
            assert(seg@ =~= s.subrange(k as int, s.len() as int));
            if fin - k == 1 && v[k] == '.' {
                assert(seg@ =~= seq!['.']);
                if k == 0 {
                    return None;
                }
                assert(s.subrange(0, k as int) =~= v@.subrange(0, k as int));
                fin = k;
            } else if fin - k == 2 && v[k] == '.' && v[k + 1] == '.' {
                assert(seg@ =~= seq!['.', '.']);
                return None;
            } else {
                assert(seg@ != seq!['.']) by {
                    if seg@.len() == 1 {
                        assert(seg@[0] == v[k as int]);
                    }
                }
                assert(seg@ != seq!['.', '.']) by {
                    if seg@.len() == 2 {
                        assert(seg@[0] == v[k as int]);
                        assert(seg@[1] == v[k + 1]);
                    }
                }
                return Some(seg);
            }
        }
    }
}

/// Where the last `.` of a name is.
pub fn position_dernier_point(n: &[char]) -> (r: Option<usize>)
    ensures
        r matches Some(p) ==> dernier_point(n@) == Some(p as int),
        r is None ==> dernier_point(n@) is None,
{
    let mut k = n.len();
    assert(n@.subrange(0, k as int) =~= n@);
    while k > 0
        invariant
            k <= n@.len(),
            dernier_point(n@) == dernier_point(n@.subrange(0, k as int)),
        decreases k,
    {
        if n[k - 1] == '.' {
            return Some(k - 1);
        }
        assert(n@.subrange(0, k as int).drop_last() =~= n@.subrange(0, k - 1));
        k = k - 1;
    }
    None
}

/// `Path::extension` of a file name.
pub fn extension_de_nom(n: &[char]) -> (r: Option<Vec<char>>)
    ensures
        r matches Some(e) ==> extension_du_nom(n@) == Some(e@),
        r is None ==> extension_du_nom(n@) is None,
{
    proof {
        lemme_dernier_point(n@);
    }
    match position_dernier_point(n) {
        Some(p) => if p > 0 {
            assert(p < n@.len());
            assert(n@.len() == n.len());
            Some(crate::chaines::tranche(n, p + 1, n.len()))
        } else {
            None
        },
        None => None,
    }
}

/// `Path::file_stem` of a file name.
pub fn souche_de_nom(n: &[char]) -> (r: Vec<char>)
    ensures
        r@ == souche_du_nom(n@),
{
    proof {
        lemme_dernier_point(n@);
    }
    match position_dernier_point(n) {
        Some(p) => if p > 0 {
            crate::chaines::tranche(n, 0, p)
        } else {
            crate::chaines::tranche(n, 0, n.len())
        },
        None => crate::chaines::tranche(n, 0, n.len()),
    }
}

/// `Path::extension` of a path.
pub fn extension_de_chemin(v: &[char]) -> (r: Option<Vec<char>>)
    ensures
        r matches Some(e) ==> extension_du_chemin(v@) == Some(e@),
        r is None ==> extension_du_chemin(v@) is None,
{
    match nom_du_chemin(v) {
        Some(n) => extension_de_nom(n.as_slice()),
        None => None,
    }
}

/// `Path::join` of a relative component.
pub fn joindre(dossier: &[char], composant: &[char]) -> (r: Vec<char>)
    ensures
        r@ == joint(dossier@, composant@),
{
    if dossier.len() == 0 || dossier[dossier.len() - 1] == '/' {
        concat(dossier, composant)
    } else {
        let d = concat(dossier, &['/']);
        let r = concat(d.as_slice(), composant);
        assert(r@ =~= dossier@ + seq!['/'] + composant@);
        r
    }
}

} // verus!
