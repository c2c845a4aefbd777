//! The Mac's photo library, and what is made of it: the library itself
//! never enters the engine, it produces a folder of photographs, and this
//! module names what goes in that folder, proposes where the folder lives,
//! and keeps the report of an import.

use vstd::prelude::*;
use crate::chaines::{
    rogne, sans_debut, decimal, zeros_devant, valeur, que_des_chiffres, contient, caracteres,
    chaine, rogner, sans_prefixe_repete, en_decimal_zeros, concat, lemme_zeros_devant,
    lemme_chiffres_sans_separateur, lemme_rogne_absent, lemme_sans_debut_absent,
};
use crate::chemins::{joint, joindre};

verus! {

/// An album of the library, as the screen lists it.
#[derive(Debug, Clone)]
pub struct AlbumPhotos {
    pub id: String,
    pub nom: String,
    pub photos: usize,
    /// A smart album is Apple's heuristic, not the user's choice.
    pub intelligent: bool,
}

/// A photograph of an album, before any byte is read.
#[derive(Debug, Clone)]
pub struct FichePhoto {
    pub id: String,
    pub nom: String,
    /// True when Photos carries a rendered version: that one is written.
    pub modifiee: bool,
}

/// What an import did, written beside the photographs.
#[derive(Debug, Clone)]
pub struct RapportImport {
    pub album: String,
    pub dossier: String,
    pub demandees: usize,
    pub importees: usize,
    pub octets: u64,
    /// Named, never only counted.
    pub absentes_du_mac: Vec<String>,
    /// The other failures, with their reason as the system wrote it.
    pub echecs: Vec<EchecPhoto>,
}

#[derive(Debug, Clone)]
pub struct EchecPhoto {
    pub nom: String,
    pub motif: String,
}

/// What the screen may show of the library. Three states, not two: not yet
/// asked, refused or unreachable, and readable.
#[derive(Debug, Clone)]
pub enum Etat {
    ADemander,
    Refuse,
    Injoignable { chemin: String },
    Lisible { albums: Vec<AlbumPhotos> },
    /// No Apple library on this platform.
    Indisponible,
}

/// What the system said of one photograph it was asked to write.
#[derive(Debug, Clone)]
pub struct IssueExport {
    pub ok: bool,
    pub octets: u64,
    pub absente_du_mac: bool,
    pub motif: String,
}

// --- Names ----------------------------------------------------------------

/// Path separators and NUL, each replaced by `_`.
pub open spec fn sans_separateurs(s: Seq<char>) -> Seq<char> {
    Seq::new(s.len(), |i: int| if s[i] == '/' || s[i] == '\\' || s[i] == '\0' { '_' } else { s[i] })
}

/// What is left of an original name once made safe: separators replaced,
/// white space trimmed, leading dots dropped, `photo.jpg` when nothing is
/// left.
pub open spec fn nom_propre(s: Seq<char>) -> Seq<char> {
    let p = sans_debut(rogne(sans_separateurs(s)), '.');
    if p.len() == 0 {
        "photo.jpg"@
    } else {
        p
    }
}

/// The rank on four digits at least, counted from one.
pub open spec fn prefixe_de_rang(rang: nat) -> Seq<char> {
    zeros_devant(decimal(rang + 1), 4)
}

/// The name of an imported file: the rank, then the original name.
pub open spec fn nom_importe(rang: nat, nom: Seq<char>) -> Seq<char> {
    prefixe_de_rang(rang) + seq!['-'] + nom_propre(nom)
}

fn sans_separateurs_de(v: &[char]) -> (r: Vec<char>)
    ensures
        r@ == sans_separateurs(v@),
{
    let mut r: Vec<char> = Vec::new();
    let mut i: usize = 0;
    while i < v.len()
        invariant
            i <= v@.len(),
            r@ == sans_separateurs(v@).subrange(0, i as int),
        decreases v.len() - i,
    {
        let c = v[i];
        r.push(if c == '/' || c == '\\' || c == '\0' { '_' } else { c });
        i = i + 1;
        assert(r@ =~= sans_separateurs(v@).subrange(0, i as int));
    }
    assert(sans_separateurs(v@).subrange(0, i as int) =~= sans_separateurs(v@));
    r
}

/// The name of an imported file: the rank, then the original name.
///
/// `originalFilename` collides massively in a library, and a `(1)` suffix
/// would replay the damage done to Google exports: the rank gives a stable
/// path order, no collision, and the same names on a second import.
pub fn nom_de_fichier(rang: usize, nom_origine: &str) -> (r: String)
    requires
        rang < usize::MAX,
    ensures
        r@ == nom_importe(rang as nat, nom_origine@),
{
    let v = caracteres(nom_origine);
    let a = sans_separateurs_de(v.as_slice());
    let b = rogner(a.as_slice());
    let p = sans_prefixe_repete(b.as_slice(), '.');
    let propre = if p.len() == 0 { caracteres("photo.jpg") } else { p };
    let n = en_decimal_zeros(rang as u64 + 1, 4);
    let t = concat(n.as_slice(), &['-']);
    let r = concat(t.as_slice(), propre.as_slice());
    chaine(r.as_slice())
}

/// No imported name holds a path separator: whatever the library calls a
/// photograph, it is written inside the import folder.
pub proof fn loi_nom_sans_separateur(rang: nat, nom: Seq<char>)
    ensures
        !contient(nom_importe(rang, nom), '/'),
        !contient(nom_importe(rang, nom), '\\'),
{
    let s = sans_separateurs(nom);
    assert(!contient(s, '/')) by {
        if contient(s, '/') {
            let i = choose|i: int| 0 <= i < s.len() && s[i] == '/';
            assert(s[i] == '/');
        }
    }
    assert(!contient(s, '\\')) by {
        if contient(s, '\\') {
            let i = choose|i: int| 0 <= i < s.len() && s[i] == '\\';
            assert(s[i] == '\\');
        }
    }
    lemme_rogne_absent(s, '/');
    lemme_rogne_absent(s, '\\');
    lemme_sans_debut_absent(rogne(s), '.', '/');
    lemme_sans_debut_absent(rogne(s), '.', '\\');
    reveal_strlit("photo.jpg");
    let q = nom_propre(nom);
    assert(!contient(q, '/') && !contient(q, '\\')) by {
        if sans_debut(rogne(s), '.').len() == 0 {
            assert(q =~= seq!['p', 'h', 'o', 't', 'o', '.', 'j', 'p', 'g']);
        }
    }
    lemme_zeros_devant(rang + 1, 4);
    let p = prefixe_de_rang(rang);
    lemme_chiffres_sans_separateur(p);
    let t = nom_importe(rang, nom);
    assert forall|i: int| 0 <= i < t.len() implies t[i] != '/' && t[i] != '\\' by {
        if i < p.len() {
            assert(t[i] == p[i]);
        } else if i == p.len() {
            assert(t[i] == '-');
        } else {
            assert(t[i] == q[i - p.len() - 1]);
        }
    }
}

/// Two photographs of the same name at two ranks never share a file name:
/// the rank reads back out of the name.
pub proof fn loi_rang_distinct(i: nat, j: nat, nom: Seq<char>)
    requires
        nom_importe(i, nom) == nom_importe(j, nom),
    ensures
        i == j,
{
    let pi = prefixe_de_rang(i);
    let pj = prefixe_de_rang(j);
    lemme_zeros_devant(i + 1, 4);
    lemme_zeros_devant(j + 1, 4);
    lemme_chiffres_sans_separateur(pi);
    lemme_chiffres_sans_separateur(pj);
    let t = nom_importe(i, nom);
    // The first `-` of the name closes the rank, on either reading.
    assert(t[pi.len() as int] == '-');
    assert(nom_importe(j, nom)[pj.len() as int] == '-');
    if pi.len() < pj.len() {
        assert(nom_importe(j, nom)[pi.len() as int] == pj[pi.len() as int]);
        assert(pj[pi.len() as int] != '-') by {
            assert(!contient(pj, '-'));
        }
    }
    if pj.len() < pi.len() {
        assert(t[pj.len() as int] == pi[pj.len() as int]);
        assert(pi[pj.len() as int] != '-') by {
            assert(!contient(pi, '-'));
        }
    }
    assert(pi.len() == pj.len());
    assert(pi =~= t.subrange(0, pi.len() as int));
    assert(pj =~= nom_importe(j, nom).subrange(0, pj.len() as int));
    assert(valeur(pi) == i + 1);
    assert(valeur(pj) == j + 1);
}

/// Characters that would dig a sub-folder, each replaced by `-`.
pub open spec fn sans_separateurs_album(s: Seq<char>) -> Seq<char> {
    Seq::new(s.len(), |i: int| if s[i] == '/' || s[i] == '\\' || s[i] == ':' { '-' } else { s[i] })
}

/// The folder name an album gets: its name made safe, or `Album`.
pub open spec fn nom_de_dossier(s: Seq<char>) -> Seq<char> {
    let p = rogne(sans_separateurs_album(s));
    if p.len() == 0 {
        "Album"@
    } else {
        p
    }
}

/// The import folder proposed for an album: visible, in the user's
/// Pictures, named by the album.
pub open spec fn dossier_propose_pour(maison: Seq<char>, nom: Seq<char>) -> Seq<char> {
    joint(joint(joint(maison, "Pictures"@), "Colophon"@), nom_de_dossier(nom))
}

pub fn dossier_propose(maison: &str, nom_album: &str) -> (r: String)
    ensures
        r@ == dossier_propose_pour(maison@, nom_album@),
{
    let v = caracteres(nom_album);
    let mut a: Vec<char> = Vec::new();
    let mut i: usize = 0;
    while i < v.len()
        invariant
            i <= v@.len(),
            a@ == sans_separateurs_album(v@).subrange(0, i as int),
        decreases v.len() - i,
    {
        let c = v[i];
        a.push(if c == '/' || c == '\\' || c == ':' { '-' } else { c });
        i = i + 1;
        assert(a@ =~= sans_separateurs_album(v@).subrange(0, i as int));
    }
    assert(sans_separateurs_album(v@).subrange(0, i as int) =~= sans_separateurs_album(v@));
    let p = rogner(a.as_slice());
    let propre = if p.len() == 0 { caracteres("Album") } else { p };
    let m = caracteres(maison);
    let d1 = joindre(m.as_slice(), caracteres("Pictures").as_slice());
    let d2 = joindre(d1.as_slice(), caracteres("Colophon").as_slice());
    let d3 = joindre(d2.as_slice(), propre.as_slice());
    chaine(d3.as_slice())
}

/// The album's folder sits directly in the Colophon folder: its name holds
/// no separator.
pub proof fn loi_dossier_sans_arborescence(nom: Seq<char>)
    ensures
        !contient(nom_de_dossier(nom), '/'),
        !contient(nom_de_dossier(nom), '\\'),
{
    let s = sans_separateurs_album(nom);
    assert(!contient(s, '/')) by {
        if contient(s, '/') {
            let i = choose|i: int| 0 <= i < s.len() && s[i] == '/';
            assert(s[i] == '/');
        }
    }
    assert(!contient(s, '\\')) by {
        if contient(s, '\\') {
            let i = choose|i: int| 0 <= i < s.len() && s[i] == '\\';
            assert(s[i] == '\\');
        }
    }
    lemme_rogne_absent(s, '/');
    lemme_rogne_absent(s, '\\');
    reveal_strlit("Album");
    if rogne(s).len() == 0 {
        assert(nom_de_dossier(nom) =~= seq!['A', 'l', 'b', 'u', 'm']);
    }
}

// --- An import ------------------------------------------------------------

/// One photograph's outcome, counted into the report: written, absent from
/// this Mac, or failed with the reason the system gave.
pub fn noter_export(rapport: &mut RapportImport, nom: &str, issue: &IssueExport)
    requires
        issue.ok ==> old(rapport).importees < usize::MAX && old(rapport).octets + issue.octets
            <= u64::MAX,
    ensures
        final(rapport).album == old(rapport).album,
        final(rapport).dossier == old(rapport).dossier,
        final(rapport).demandees == old(rapport).demandees,
        issue.ok ==> {
            &&& final(rapport).importees == old(rapport).importees + 1
            &&& final(rapport).octets == old(rapport).octets + issue.octets
            &&& final(rapport).absentes_du_mac@ == old(rapport).absentes_du_mac@
            &&& final(rapport).echecs@ == old(rapport).echecs@
        },
        !issue.ok && issue.absente_du_mac ==> {
            &&& final(rapport).importees == old(rapport).importees
            &&& final(rapport).octets == old(rapport).octets
            &&& final(rapport).absentes_du_mac@.len() == old(rapport).absentes_du_mac@.len() + 1
            &&& final(rapport).absentes_du_mac@.drop_last() == old(rapport).absentes_du_mac@
            &&& final(rapport).absentes_du_mac@.last()@ == nom@
            &&& final(rapport).echecs@ == old(rapport).echecs@
        },
        !issue.ok && !issue.absente_du_mac ==> {
            &&& final(rapport).importees == old(rapport).importees
            &&& final(rapport).octets == old(rapport).octets
            &&& final(rapport).absentes_du_mac@ == old(rapport).absentes_du_mac@
            &&& final(rapport).echecs@.len() == old(rapport).echecs@.len() + 1
            &&& final(rapport).echecs@.drop_last() == old(rapport).echecs@
            &&& final(rapport).echecs@.last().nom@ == nom@
            &&& final(rapport).echecs@.last().motif@ == issue.motif@
        },
{
    if issue.ok {
        rapport.importees = rapport.importees + 1;
        rapport.octets = rapport.octets + issue.octets;
    } else if issue.absente_du_mac {
        rapport.absentes_du_mac.push(nom.to_owned());
        assert(rapport.absentes_du_mac@.drop_last() =~= old(rapport).absentes_du_mac@);
    } else {
        let motif = issue.motif.clone();
        rapport.echecs.push(EchecPhoto { nom: nom.to_owned(), motif });
        assert(rapport.echecs@.drop_last() =~= old(rapport).echecs@);
    }
}

// --- The import's steps ----------------------------------------------------

/// What an import does next.
#[derive(Debug, Clone)]
pub enum EtapeImport {
    /// Export the photograph of this rank under this file name.
    Exporter { rang: usize, fichier: String },
    /// Stop: every photograph has been asked for, or the user cancelled.
    Terminer,
}

/// The next step of an import that has already asked for the first `rang`
/// photographs of the album, whose names the library gave in order: stop on
/// a cancellation or past the last photograph, export the next one under
/// its ranked name otherwise. Every outcome is counted with
/// [`noter_export`], and the report is written however the import ends.
pub fn etape_import(noms: &[String], rang: usize, annule: bool) -> (e: EtapeImport)
    requires
        noms@.len() < usize::MAX,
    ensures
        (annule || rang >= noms@.len()) ==> e is Terminer,
        !(annule || rang >= noms@.len()) ==> (e matches EtapeImport::Exporter { rang: r, fichier }
            && r == rang && fichier@ == nom_importe(rang as nat, noms@[rang as int]@)),
{
    if annule || rang >= noms.len() {
        EtapeImport::Terminer
    } else {
        EtapeImport::Exporter { rang, fichier: nom_de_fichier(rang, noms[rang].as_str()) }
    }
}

// --- Off macOS ------------------------------------------------------------

/// The reason every library command gives where there is no Apple library.
pub const HORS_MACOS: &'static str = "la photothèque Apple n'existe que sur macOS";

/// The raw authorisation status: off macOS, never readable (1).
pub fn statut() -> (r: i32)
    ensures
        r == 1,
{
    1
}

/// Asking for access: off macOS, the answer is always no (1).
pub fn demander() -> (r: i32)
    ensures
        r == 1,
{
    1
}

/// The state of the library: off macOS there is none.
pub fn etat() -> (r: Etat)
    ensures
        r is Indisponible,
{
    Etat::Indisponible
}

/// An album's photographs: off macOS, refused with the reason.
pub fn lister(_album: &str) -> (r: Result<(String, Vec<FichePhoto>), String>)
    ensures
        r matches Err(e) && e@ == HORS_MACOS@,
{
    Err(HORS_MACOS.to_owned())
}

/// An album imported into a folder: off macOS, refused with the reason,
/// before anything is written or reported.
pub fn importer<P: Fn(usize, usize), A: Fn() -> bool>(
    _album: &str,
    _dossier: &str,
    _reseau: bool,
    _progres: &P,
    _annule: &A,
) -> (r: Result<RapportImport, String>)
    ensures
        r matches Err(e) && e@ == HORS_MACOS@,
{
    Err(HORS_MACOS.to_owned())
}

} // verus!
