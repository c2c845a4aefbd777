//! The export manifest: which album a delivered PDF comes from, and for
//! which printer. `export.json` sits next to `album.json`; a file with no
//! entry in it says nothing, and the entries are kept one per file, sorted
//! by name. Reading and writing the file is the application's business;
//! deciding what it holds is this module's.

use vstd::prelude::*;
use crate::chaines::{caracteres, chaine};

verus! {

/// The manifest's file name, beside `album.json`.
pub const NOM: &'static str = "export.json";

/// The two delivery names: what `--print` and `--cover` write, what the
/// manifest records and what the preflight judges.
pub const LIVRAISON_INTERIEUR: &'static str = "album-print.pdf";
pub const LIVRAISON_COUVERTURE: &'static str = "album-cover.pdf";

// --- The fingerprint -------------------------------------------------------

/// The FNV-1a offset basis.
pub const FNV_BASE: u64 = 0xcbf2_9ce4_8422_2325;
/// The FNV-1a prime.
pub const FNV_PREMIER: u64 = 0x100_0000_01b3;
/// What the second round shifts the offset basis by.
pub const DECALAGE_SECOND_TOUR: u64 = 0x9E37_79B9_7F4A_7C15;

/// One FNV-1a step: xor the byte in, multiply by the prime modulo 2^64.
pub open spec fn pas_fnv(h: u64, b: u8) -> u64 {
    (((h ^ (b as u64)) as nat * FNV_PREMIER as nat) % 0x1_0000_0000_0000_0000nat) as u64
}

/// FNV-1a from the state `h` over `s`, byte after byte.
pub open spec fn fnv1a(h: u64, s: Seq<u8>) -> u64
    decreases s.len(),
{
    if s.len() == 0 {
        h
    } else {
        pas_fnv(fnv1a(h, s.drop_last()), s.last())
    }
}

/// The starting state of a round: the basis, xored with the round number
/// times the shift (so the first round starts on the plain basis).
pub open spec fn graine(tour: u64) -> u64 {
    FNV_BASE ^ (((tour as nat * DECALAGE_SECOND_TOUR as nat) % 0x1_0000_0000_0000_0000nat) as u64)
}

/// The eight bytes of `h`, most significant first (`u64::to_be_bytes`).
pub open spec fn octets_be(h: u64) -> Seq<u8> {
    seq![
        (h >> 56u64) as u8, (h >> 48u64) as u8, (h >> 40u64) as u8, (h >> 32u64) as u8,
        (h >> 24u64) as u8, (h >> 16u64) as u8, (h >> 8u64) as u8, h as u8,
    ]
}

/// Sixteen bytes that differ from one content to the next: FNV-1a twice,
/// the second round from a shifted basis, each state written big-endian.
pub open spec fn empreinte_de(s: Seq<u8>) -> Seq<u8> {
    octets_be(fnv1a(graine(0), s)) + octets_be(fnv1a(graine(1), s))
}

fn tour_fnv(octets: &[u8], tour: u64) -> (h: u64)
    requires
        tour <= 1,
    ensures
        h == fnv1a(graine(tour), octets@),
{
    let mut h: u64 = FNV_BASE ^ tour.wrapping_mul(DECALAGE_SECOND_TOUR);
    let mut i: usize = 0;
    while i < octets.len()
        invariant
            i <= octets@.len(),
            h == fnv1a(graine(tour), octets@.subrange(0, i as int)),
        decreases octets.len() - i,
    {
        proof {
            let s = octets@.subrange(0, i as int + 1);
            assert(s.drop_last() =~= octets@.subrange(0, i as int));
            assert(s.last() == octets@[i as int]);
        }
        h = (h ^ (octets[i] as u64)).wrapping_mul(FNV_PREMIER);
        i = i + 1;
    }
    assert(octets@.subrange(0, i as int) =~= octets@);
    h
}

/// The fingerprint of a content: what the PDF identifier has always been
/// made of, and what the manifest records of an album.
pub fn empreinte(octets: &[u8]) -> (r: [u8; 16])
    ensures
        r@ == empreinte_de(octets@),
{
    let a = tour_fnv(octets, 0);
    let b = tour_fnv(octets, 1);
    let r: [u8; 16] = [
        (a >> 56u64) as u8, (a >> 48u64) as u8, (a >> 40u64) as u8, (a >> 32u64) as u8,
        (a >> 24u64) as u8, (a >> 16u64) as u8, (a >> 8u64) as u8, a as u8,
        (b >> 56u64) as u8, (b >> 48u64) as u8, (b >> 40u64) as u8, (b >> 32u64) as u8,
        (b >> 24u64) as u8, (b >> 16u64) as u8, (b >> 8u64) as u8, b as u8,
    ];
    assert(r@ =~= empreinte_de(octets@));
    r
}

/// A lowercase hexadecimal digit.
pub open spec fn chiffre_hexa(d: nat) -> char {
    if d < 10 {
        ((d + 48) as u8) as char
    } else {
        ((d + 87) as u8) as char
    }
}

/// Two lowercase hexadecimal digits per byte, in order (`{b:02x}`).
pub open spec fn hexa(s: Seq<u8>) -> Seq<char>
    decreases s.len(),
{
    if s.len() == 0 {
        Seq::empty()
    } else {
        hexa(s.drop_last()) + seq![chiffre_hexa((s.last() / 16) as nat), chiffre_hexa((s.last() % 16) as nat)]
    }
}

fn chiffre_hexa_de(d: u8) -> (c: char)
    requires
        d < 16,
    ensures
        c == chiffre_hexa(d as nat),
{
    if d < 10 {
        (d + 48) as char
    } else {
        (d + 87) as char
    }
}

/// The bytes written as lowercase hexadecimal, two digits each.
pub fn hex(octets: &[u8]) -> (s: String)
    ensures
        s@ == hexa(octets@),
        s@.len() == 2 * octets@.len(),
{
    let mut v: Vec<char> = Vec::new();
    let mut i: usize = 0;
    while i < octets.len()
        invariant
            i <= octets@.len(),
            v@ == hexa(octets@.subrange(0, i as int)),
            v@.len() == 2 * i,
        decreases octets.len() - i,
    {
        proof {
            let t = octets@.subrange(0, i as int + 1);
            assert(t.drop_last() =~= octets@.subrange(0, i as int));
            assert(t.last() == octets@[i as int]);
        }
        let b = octets[i];
        v.push(chiffre_hexa_de(b / 16));
        v.push(chiffre_hexa_de(b % 16));
        i = i + 1;
    }
    assert(octets@.subrange(0, i as int) =~= octets@);
    chaine(&v)
}

// --- The manifest ------------------------------------------------------------

/// What a render wrote: the file, for whom, from which album.
#[derive(Debug, Clone)]
pub struct Artefact {
    /// File name beside `album.json`, never a path.
    pub fichier: String,
    /// The printer profile that decided its geometry.
    pub profil: String,
    /// The album's fingerprint at render time.
    pub album: String,
    /// The size of the written file.
    pub octets: u64,
    /// The render instant, read and never judged.
    pub date: String,
}

/// Everything the exports left in a folder.
#[derive(Debug, Clone)]
pub struct Manifeste {
    pub artefacts: Vec<Artefact>,
}

/// `a` sorts strictly before `b`, character by character (which, for
/// UTF-8 text, is also the byte order `String` compares by).
pub open spec fn avant(a: Seq<char>, b: Seq<char>) -> bool
    decreases a.len(),
{
    if b.len() == 0 {
        false
    } else if a.len() == 0 {
        true
    } else if a[0] != b[0] {
        (a[0] as u32) < (b[0] as u32)
    } else {
        avant(a.drop_first(), b.drop_first())
    }
}

/// Whether `a` may stand before `b` in a manifest sorted by name.
pub open spec fn range_avant(a: Seq<char>, b: Seq<char>) -> bool {
    !avant(b, a)
}

/// The names of a manifest's entries, in order.
pub open spec fn noms(v: Seq<Artefact>) -> Seq<Seq<char>> {
    Seq::new(v.len(), |i: int| v[i].fichier@)
}

/// Entries sorted by name.
pub open spec fn trie(v: Seq<Artefact>) -> bool {
    forall|i: int, j: int| 0 <= i < j < v.len() ==> range_avant(v[i].fichier@, v[j].fichier@)
}

/// The entries of `v` that do not carry the name `f`, in order.
pub open spec fn sans_nom(v: Seq<Artefact>, f: Seq<char>) -> Seq<Artefact>
    decreases v.len(),
{
    if v.len() == 0 {
        Seq::empty()
    } else if v.last().fichier@ != f {
        sans_nom(v.drop_last(), f).push(v.last())
    } else {
        sans_nom(v.drop_last(), f)
    }
}

pub proof fn lemme_sans_nom(v: Seq<Artefact>, f: Seq<char>)
    ensures
        forall|k: int| 0 <= k < sans_nom(v, f).len() ==> #[trigger] sans_nom(v, f)[k].fichier@ != f,
    decreases v.len(),
{
    if v.len() > 0 {
        lemme_sans_nom(v.drop_last(), f);
        let r = sans_nom(v.drop_last(), f);
        if v.last().fichier@ != f {
            assert forall|k: int| 0 <= k < r.push(v.last()).len() implies
                #[trigger] r.push(v.last())[k].fichier@ != f by {
                if k < r.len() {
                    assert(r.push(v.last())[k] == r[k]);
                }
            }
        }
    }
}

pub proof fn lemme_avant_irreflexif(a: Seq<char>)
    ensures
        !avant(a, a),
    decreases a.len(),
{
    if a.len() > 0 {
        lemme_avant_irreflexif(a.drop_first());
    }
}

pub proof fn lemme_avant_total(a: Seq<char>, b: Seq<char>)
    ensures
        a != b ==> (avant(a, b) || avant(b, a)),
        !(avant(a, b) && avant(b, a)),
    decreases a.len(),
{
    if a.len() > 0 && b.len() > 0 {
        if a[0] == b[0] {
            lemme_avant_total(a.drop_first(), b.drop_first());
            if a.drop_first() == b.drop_first() {
                assert(a =~= seq![a[0]] + a.drop_first());
                assert(b =~= seq![b[0]] + b.drop_first());
                assert(a =~= b);
            }
        } else {
            vstd::utf8::char_u32_cast(a[0], a[0] as u32);
            vstd::utf8::char_u32_cast(b[0], b[0] as u32);
        }
    } else if a.len() == 0 && b.len() == 0 {
        assert(a =~= b);
    }
}

pub proof fn lemme_avant_transitif(a: Seq<char>, b: Seq<char>, c: Seq<char>)
    requires
        avant(a, b),
        avant(b, c),
    ensures
        avant(a, c),
    decreases a.len(),
{
    if a.len() > 0 && b.len() > 0 && c.len() > 0 && a[0] == b[0] && b[0] == c[0] {
        lemme_avant_transitif(a.drop_first(), b.drop_first(), c.drop_first());
    }
}

/// `range_avant` chains: a manifest sorted pairwise is sorted.
pub proof fn lemme_range_transitif(a: Seq<char>, b: Seq<char>, c: Seq<char>)
    requires
        range_avant(a, b),
        range_avant(b, c),
    ensures
        range_avant(a, c),
{
    if avant(c, a) {
        lemme_avant_total(a, b);
        lemme_avant_total(b, c);
        if a == b {
            assert(avant(c, b));
        } else if b == c {
            assert(avant(b, a));
        } else {
            lemme_avant_transitif(c, a, b);
        }
    }
}

/// Whether `a` sorts strictly before `b`.
pub(crate) fn compare_avant(a: &String, b: &String) -> (r: bool)
    ensures
        r == avant(a@, b@),
{
    let x = caracteres(a.as_str());
    let y = caracteres(b.as_str());
    let mut i: usize = 0;
    assert(x@.subrange(0, x@.len() as int) =~= x@);
    assert(y@.subrange(0, y@.len() as int) =~= y@);
    while i < x.len() && i < y.len() && x[i] == y[i]
        invariant
            i <= x@.len(),
            i <= y@.len(),
            x@.subrange(0, i as int) == y@.subrange(0, i as int),
            avant(x@, y@) == avant(x@.subrange(i as int, x@.len() as int), y@.subrange(i as int, y@.len() as int)),
        decreases x.len() - i,
    {
        proof {
            let xs = x@.subrange(i as int, x@.len() as int);
            let ys = y@.subrange(i as int, y@.len() as int);
            assert(xs.drop_first() =~= x@.subrange(i as int + 1, x@.len() as int));
            assert(ys.drop_first() =~= y@.subrange(i as int + 1, y@.len() as int));
            assert(x@.subrange(0, i as int + 1) =~= x@.subrange(0, i as int).push(x@[i as int]));
            assert(y@.subrange(0, i as int + 1) =~= y@.subrange(0, i as int).push(y@[i as int]));
        }
        i = i + 1;
    }
    proof {
        assert(x@.subrange(i as int, x@.len() as int).len() == x@.len() - i);
        if i < x@.len() {
            assert(x@.subrange(i as int, x@.len() as int)[0] == x@[i as int]);
        }
        if i < y@.len() {
            assert(y@.subrange(i as int, y@.len() as int)[0] == y@[i as int]);
        }
    }
    if i == y.len() {
        false
    } else if i == x.len() {
        true
    } else {
        (x[i] as u32) < (y[i] as u32)
    }
}

impl Artefact {
    /// A field-by-field copy.
    pub fn copie(&self) -> (r: Artefact)
        ensures
            r == *self,
    {
        Artefact {
            fichier: self.fichier.clone(),
            profil: self.profil.clone(),
            album: self.album.clone(),
            octets: self.octets,
            date: self.date.clone(),
        }
    }
}

/// Where `nom` goes in the sorted `v`: after every entry it does not sort
/// before, so that equal names keep the order they came in.
fn place_triee(v: &Vec<Artefact>, nom: &String) -> (p: usize)
    requires
        trie(v@),
    ensures
        p <= v@.len(),
        forall|k: int| 0 <= k < p ==> !avant(nom@, #[trigger] v@[k].fichier@),
        forall|k: int| p <= k < v@.len() ==> range_avant(nom@, #[trigger] v@[k].fichier@),
{
    let mut p: usize = 0;
    while p < v.len() && !compare_avant(nom, &v[p].fichier)
        invariant
            p <= v@.len(),
            forall|k: int| 0 <= k < p ==> !avant(nom@, #[trigger] v@[k].fichier@),
        decreases v.len() - p,
    {
        p = p + 1;
    }
    proof {
        assert forall|k: int| p <= k < v@.len() implies range_avant(nom@, #[trigger] v@[k].fichier@) by {
            lemme_avant_total(nom@, v@[p as int].fichier@);
            if k > p {
                assert(range_avant(v@[p as int].fichier@, v@[k].fichier@));
                if avant(v@[k].fichier@, nom@) {
                    lemme_avant_transitif(v@[k].fichier@, nom@, v@[p as int].fichier@);
                }
            }
        }
    }
    p
}

/// `apres` is `avant` once `a` is recorded: sorted by name, `a` the one
/// entry under its name, every other entry kept.
pub open spec fn enregistre(avant: Seq<Artefact>, apres: Seq<Artefact>, a: Artefact) -> bool {
    &&& trie(apres)
    &&& exists|i: int| 0 <= i < apres.len()
        && apres[i] == a
        && forall|k: int| 0 <= k < apres.len() && k != i ==> #[trigger] apres[k].fichier@ != a.fichier@
    &&& apres.to_multiset() == sans_nom(avant, a.fichier@).push(a).to_multiset()
}

proof fn lemme_sans_nom_compte(v: Seq<Artefact>, f: Seq<char>, x: Artefact)
    requires
        x.fichier@ != f,
    ensures
        sans_nom(v, f).to_multiset().count(x) == v.to_multiset().count(x),
    decreases v.len(),
{
    broadcast use vstd::seq_lib::group_to_multiset_ensures;
    if v.len() > 0 {
        lemme_sans_nom_compte(v.drop_last(), f, x);
        assert(v =~= v.drop_last().push(v.last()));
    }
}

/// What a render records, the manifest gives back, and nothing else moves:
/// after recording `a`, the manifest holds it, every entry under its name is
/// `a`, and every entry under another name is there exactly as often as
/// before.
pub proof fn loi_ce_qui_est_note_se_relit(avant: Seq<Artefact>, apres: Seq<Artefact>, a: Artefact, x: Artefact)
    requires
        enregistre(avant, apres, a),
    ensures
        apres.contains(a),
        forall|i: int| 0 <= i < apres.len() && apres[i].fichier@ == a.fichier@ ==> apres[i] == a,
        x.fichier@ != a.fichier@ ==> apres.to_multiset().count(x) == avant.to_multiset().count(x),
{
    broadcast use vstd::seq_lib::group_to_multiset_ensures;
    let i = choose|i: int| 0 <= i < apres.len()
        && apres[i] == a
        && forall|k: int| 0 <= k < apres.len() && k != i ==> #[trigger] apres[k].fichier@ != a.fichier@;
    assert(apres[i] == a);
    if x.fichier@ != a.fichier@ {
        lemme_sans_nom_compte(avant, a.fichier@, x);
    }
}

impl Manifeste {
    /// An empty manifest: what a folder without `export.json`, or with one
    /// that does not read, amounts to.
    pub fn vide() -> (m: Manifeste)
        ensures
            m.artefacts@.len() == 0,
    {
        Manifeste { artefacts: Vec::new() }
    }

    /// What the manifest says of a file, if it says anything: the first
    /// entry under that name.
    pub fn artefact(&self, fichier: &str) -> (r: Option<&Artefact>)
        ensures
            match r {
                None => forall|i: int| 0 <= i < self.artefacts@.len() ==> self.artefacts@[i].fichier@ != fichier@,
                Some(a) => exists|i: int| 0 <= i < self.artefacts@.len()
                    && *a == self.artefacts@[i]
                    && a.fichier@ == fichier@
                    && forall|k: int| 0 <= k < i ==> self.artefacts@[k].fichier@ != fichier@,
            },
    {
        let cherche = fichier.to_owned();
        let mut i: usize = 0;
        while i < self.artefacts.len()
            invariant
                i <= self.artefacts@.len(),
                cherche@ == fichier@,
                forall|k: int| 0 <= k < i ==> self.artefacts@[k].fichier@ != fichier@,
            decreases self.artefacts.len() - i,
        {
            if self.artefacts[i].fichier == cherche {
                return Some(&self.artefacts[i]);
            }
            i = i + 1;
        }
        None
    }

    /// Record the file a render just wrote. One entry per file: a second
    /// render of the same file replaces the first rather than stacking
    /// behind it, and the entries end sorted by name, so the manifest does
    /// not depend on the order of the commands.
    pub fn remplacer(&mut self, artefact: Artefact)
        ensures
            enregistre(old(self).artefacts@, final(self).artefacts@, artefact),
    {
        broadcast use vstd::seq_lib::group_to_multiset_ensures;
        let ghost f = artefact.fichier@;
        let ghost avant_tout = self.artefacts@;
        let mut garde: Vec<Artefact> = Vec::new();
        let n = self.artefacts.len();
        let mut i: usize = 0;
        while i < n
            invariant
                n == self.artefacts@.len(),
                self.artefacts@ == avant_tout,
                f == artefact.fichier@,
                i <= n,
                garde@ == sans_nom(avant_tout.subrange(0, i as int), f),
            decreases n - i,
        {
            proof {
                let s = avant_tout.subrange(0, i as int + 1);
                assert(s.drop_last() =~= avant_tout.subrange(0, i as int));
            }
            if self.artefacts[i].fichier != artefact.fichier {
                garde.push(self.artefacts[i].copie());
            }
            i = i + 1;
        }
        assert(avant_tout.subrange(0, n as int) =~= avant_tout);
        proof {
            lemme_sans_nom(avant_tout, f);
        }
        garde.push(artefact.copie());
        let m = garde.len();
        let mut out: Vec<Artefact> = Vec::new();
        let mut j: usize = 0;
        let mut ou: usize = 0;
        while j < m
            invariant
                m == garde@.len(),
                garde@ == sans_nom(avant_tout, f).push(artefact),
                f == artefact.fichier@,
                j <= m,
                forall|k: int| 0 <= k < sans_nom(avant_tout, f).len() ==>
                    #[trigger] sans_nom(avant_tout, f)[k].fichier@ != f,
                trie(out@),
                out@.to_multiset() == garde@.subrange(0, j as int).to_multiset(),
                out@.len() == j,
                j < m ==> forall|k: int| 0 <= k < out@.len() ==> #[trigger] out@[k].fichier@ != f,
                j == m ==> ou < out@.len() && out@[ou as int] == artefact
                    && forall|k: int| 0 <= k < out@.len() && k != ou ==> #[trigger] out@[k].fichier@ != f,
            decreases m - j,
        {
            let e = garde[j].copie();
            let p = place_triee(&out, &e.fichier);
            let ghost before = out@;
            out.insert(p, e);
            proof {
                assert(garde@.subrange(0, j as int + 1) =~= garde@.subrange(0, j as int).push(garde@[j as int]));
                vstd::seq_lib::to_multiset_insert(before, p as int, e);
                vstd::seq_lib::to_multiset_build(garde@.subrange(0, j as int), garde@[j as int]);
                assert forall|k: int| 0 <= k < out@.len() && k != p implies
                    (#[trigger] out@[k]) == before[if k < p { k } else { k - 1 }] by {}
                assert forall|a: int, b: int| 0 <= a < b < out@.len() implies
                    range_avant(out@[a].fichier@, out@[b].fichier@) by {
                    if a < p && b == p {
                        lemme_avant_irreflexif(e.fichier@);
                    } else if a < p && b > p {
                        assert(out@[b] == before[b - 1]);
                    } else if a == p && b > p {
                        assert(out@[b] == before[b - 1]);
                    } else if a > p {
                        assert(out@[a] == before[a - 1]);
                        assert(out@[b] == before[b - 1]);
                    }
                }
                if j + 1 < m {
                    assert(garde@[j as int] == sans_nom(avant_tout, f)[j as int]);
                }
            }
            ou = p;
            j = j + 1;
        }
        assert(garde@.subrange(0, m as int) =~= garde@);
        self.artefacts = out;
        assert(self.artefacts@[ou as int] == artefact);
    }
}

} // verus!
