//! The application's albums folder: an album is named by an identifier the
//! interface sends back, and that identifier must never be able to name
//! anything but a folder directly inside the albums folder. Whether the
//! folder exists, and where a symbolic link really leads, is asked of the
//! disk by the application.

use vstd::prelude::*;
use crate::chaines::caracteres;
use crate::chemins::{joint, nom_final, debut_segment, lemme_debut_segment};

verus! {

/// An identifier that can only name one folder inside another: not empty,
/// not hidden (no leading `.`), no separator of either platform, and no
/// `..` anywhere in it.
pub open spec fn identifiant_sur(id: Seq<char>) -> bool {
    &&& id.len() > 0
    &&& id[0] != '.'
    &&& forall|i: int| 0 <= i < id.len() ==> id[i] != '/' && id[i] != '\\'
    &&& forall|i: int| 0 <= i < id.len() - 1 ==> !(#[trigger] id[i] == '.' && id[i + 1] == '.')
}

/// Whether `id` may name an album folder.
pub fn identifiant_valide(id: &str) -> (b: bool)
    ensures
        b == identifiant_sur(id@),
{
    let v = caracteres(id);
    if v.len() == 0 || v[0] == '.' {
        return false;
    }
    let mut i: usize = 0;
    while i < v.len()
        invariant
            i <= v@.len(),
            v@ == id@,
            v@.len() > 0,
            forall|k: int| 0 <= k < i ==> v@[k] != '/' && v@[k] != '\\',
            forall|k: int| 0 <= k < i && k < v@.len() - 1 ==> !(#[trigger] v@[k] == '.' && v@[k + 1] == '.'),
        decreases v.len() - i,
    {
        if v[i] == '/' || v[i] == '\\' {
            assert(!(v@[i as int] != '/' && v@[i as int] != '\\'));
            return false;
        }
        if i + 1 < v.len() && v[i] == '.' && v[i + 1] == '.' {
            assert(v@[i as int] == '.' && v@[i + 1] == '.');
            return false;
        }
        i = i + 1;
    }
    true
}

/// An album identifier can never be a path: joined to the albums folder,
/// it names exactly one folder directly inside it, under its own name.
pub proof fn loi_un_identifiant_n_est_jamais_un_chemin(racine: Seq<char>, id: Seq<char>)
    requires
        identifiant_sur(id),
    ensures
        nom_final(joint(racine, id)) == Some(id),
{
    let p = joint(racine, id);
    let debut = p.len() - id.len();
    assert(p.subrange(debut, p.len() as int) =~= id);
    assert(forall|i: int| debut <= i < p.len() ==> p[i] == id[i - debut]);
    assert(p.last() == id[id.len() - 1]);
    assert(debut > 0 ==> p[debut - 1] == '/');
    lemme_debut_segment(p);
    let k = debut_segment(p);
    if k < debut {
        assert(p[debut - 1] == '/');
    } else if k > debut {
        assert(p[k - 1] == id[k - 1 - debut]);
    }
    assert(k == debut);
    assert(p.subrange(k, p.len() as int) != seq!['.']);
    assert(p.subrange(k, p.len() as int) != seq!['.', '.']);
}

} // verus!
