//! An extracted face reads back as the face it came from. The writer emits
//! a single-face file; reading that file walks its directory, finds each
//! kept table at the offset and length its record states, and gets back
//! the very bytes that were kept, `head`'s checksum adjustment aside.

use vstd::prelude::*;
use crate::octets::{lu16, lu32};
use crate::font::{
    be16, be32, enregistrement, somme, rembourre, contenu_ecrit, decalage, repertoire_ecrit,
    longueur_corps, aligne4, corps, lemme_corps_longueur, lemme_contenu_ecrit_longueur, fichier,
    entete, log2_plancher, puissance2, lemme_log2, cherche_table, place_table, contenu_table,
    tables_choisies, tag_ordre, gardee, Genre, NOMBRE_DE_TAGS, lemme_contenu_table_borne,
    TAG_CFF, TAG_OS2, TAG_CMAP, TAG_CVT, TAG_FPGM, TAG_GLYF, TAG_HEAD, TAG_HHEA, TAG_HMTX,
    TAG_LOCA, TAG_MAXP, TAG_NAME, TAG_POST, TAG_PREP, TAG_CFF2, TAG_FVAR, extraction, Refus,
    lecture_face, VueFace, nombre_de_faces, repertoire, ouverture, VueEmbarquee, lemme_lecture_face,
    ajustement, manque_requise, trop_long, requise, est_collection, genre_de, lecture_communes,
    signature_sfnt, repertoire_annonce,
};

verus! {

// --- Bytes --------------------------------------------------------------------------

proof fn lemme_be32(v: int)
    requires
        0 <= v <= u32::MAX,
    ensures
        be32(v).len() == 4,
        lu32(be32(v), 0) == Some(v as u32),
{
    let x = v as u32;
    assert(x as int == v);
    let b = be32(v);
    assert((x / 0x100_0000) % 0x100 * 0x100_0000 + (x / 0x1_0000) % 0x100 * 0x1_0000
        + (x / 0x100) % 0x100 * 0x100 + x % 0x100 == x) by (bit_vector);
    assert(b[0] as int == (v / 0x100_0000) % 0x100);
    assert(b[1] as int == (v / 0x1_0000) % 0x100);
    assert(b[2] as int == (v / 0x100) % 0x100);
    assert(b[3] as int == v % 0x100);
}

proof fn lemme_be16(v: int)
    requires
        0 <= v <= u16::MAX,
    ensures
        be16(v).len() == 2,
        lu16(be16(v), 0) == Some(v as u16),
{
    let x = v as u16;
    assert(x as int == v);
    assert((x / 0x100) % 0x100 * 0x100 + x % 0x100 == x) by (bit_vector);
    assert(be16(v)[0] as int == (v / 0x100) % 0x100);
    assert(be16(v)[1] as int == v % 0x100);
}

/// A four-byte read depends on those four bytes only.
proof fn lemme_lu32_local(x: Seq<u8>, at: int, y: Seq<u8>)
    requires
        0 <= at,
        at + 4 <= x.len(),
        y == x.subrange(at, at + 4),
    ensures
        lu32(x, at) == lu32(y, 0),
{
    assert(y[0] == x[at]);
    assert(y[1] == x[at + 1]);
    assert(y[2] == x[at + 2]);
    assert(y[3] == x[at + 3]);
}

proof fn lemme_lu16_local(x: Seq<u8>, at: int, y: Seq<u8>)
    requires
        0 <= at,
        at + 2 <= x.len(),
        y == x.subrange(at, at + 2),
    ensures
        lu16(x, at) == lu16(y, 0),
{
    assert(y[0] == x[at]);
    assert(y[1] == x[at + 1]);
}

// --- The emitted file, piece by piece ---------------------------------------------------

proof fn lemme_quatre(a: Seq<u8>, b: Seq<u8>, c: Seq<u8>, l: Seq<u8>)
    requires
        a.len() == 4,
        b.len() == 4,
        c.len() == 4,
        l.len() == 4,
    ensures
        (a + b + c + l).len() == 16,
        lu32(a + b + c + l, 0) == lu32(a, 0),
        lu32(a + b + c + l, 8) == lu32(c, 0),
        lu32(a + b + c + l, 12) == lu32(l, 0),
{
    let e = a + b + c + l;
    assert(e.subrange(0, 4) =~= a);
    assert(e.subrange(8, 12) =~= c);
    assert(e.subrange(12, 16) =~= l);
    lemme_lu32_local(e, 0, a);
    lemme_lu32_local(e, 8, c);
    lemme_lu32_local(e, 12, l);
}

proof fn lemme_enregistrement(ts: Seq<(u32, Seq<u8>)>, k: int)
    requires
        0 <= k < ts.len(),
        0 <= decalage(ts, k) <= u32::MAX,
        ts[k].1.len() <= u32::MAX,
    ensures
        enregistrement(ts, k).len() == 16,
        lu32(enregistrement(ts, k), 0) == Some(ts[k].0),
        lu32(enregistrement(ts, k), 8) == Some(decalage(ts, k) as u32),
        lu32(enregistrement(ts, k), 12) == Some(ts[k].1.len() as u32),
{
    let s = somme(rembourre(contenu_ecrit(ts[k], 0)));
    let a = be32(ts[k].0 as int);
    let b = be32(s as int);
    let c = be32(decalage(ts, k));
    let l = be32(ts[k].1.len() as int);
    lemme_be32(ts[k].0 as int);
    lemme_be32(s as int);
    lemme_be32(decalage(ts, k));
    lemme_be32(ts[k].1.len() as int);
    lemme_quatre(a, b, c, l);
    assert(enregistrement(ts, k) == a + b + c + l);
}

proof fn lemme_repertoire_ecrit(ts: Seq<(u32, Seq<u8>)>, m: int)
    requires
        0 <= m <= ts.len(),
        forall|k: int| 0 <= k < ts.len() ==> 0 <= #[trigger] decalage(ts, k) <= u32::MAX,
        forall|k: int| 0 <= k < ts.len() ==> (#[trigger] ts[k]).1.len() <= u32::MAX,
    ensures
        repertoire_ecrit(ts, m).len() == 16 * m,
        forall|k: int| 0 <= k < m ==> repertoire_ecrit(ts, m).subrange(16 * k, 16 * k + 16)
            == #[trigger] enregistrement(ts, k),
    decreases m,
{
    if m > 0 {
        lemme_repertoire_ecrit(ts, m - 1);
        lemme_enregistrement(ts, m - 1);
        let r = repertoire_ecrit(ts, m - 1);
        let e = enregistrement(ts, m - 1);
        assert forall|k: int| 0 <= k < m implies repertoire_ecrit(ts, m).subrange(16 * k, 16 * k + 16)
            == #[trigger] enregistrement(ts, k) by {
            if k < m - 1 {
                assert(repertoire_ecrit(ts, m).subrange(16 * k, 16 * k + 16) =~= r.subrange(16 * k, 16 * k + 16));
            } else {
                assert(repertoire_ecrit(ts, m).subrange(16 * k, 16 * k + 16) =~= e);
            }
        }
    }
}

proof fn lemme_longueur_croissante(ts: Seq<(u32, Seq<u8>)>, k: int, m: int)
    requires
        0 <= k <= m <= ts.len(),
    ensures
        longueur_corps(ts, k) <= longueur_corps(ts, m),
        k < m ==> longueur_corps(ts, k) + ts[k].1.len() <= longueur_corps(ts, m),
    decreases m - k,
{
    if k < m {
        lemme_longueur_croissante(ts, k + 1, m);
        assert(longueur_corps(ts, k + 1) == longueur_corps(ts, k) + aligne4(ts[k].1.len() as int));
    }
}

proof fn lemme_corps_table(ts: Seq<(u32, Seq<u8>)>, m: int, k: int, adj: u32)
    requires
        0 <= k < m <= ts.len(),
    ensures
        corps(ts, m, adj).subrange(longueur_corps(ts, k), longueur_corps(ts, k) + ts[k].1.len())
            == contenu_ecrit(ts[k], adj),
    decreases m,
{
    lemme_corps_longueur(ts, m, adj);
    lemme_corps_longueur(ts, m - 1, adj);
    lemme_contenu_ecrit_longueur(ts[m - 1], adj);
    let p = corps(ts, m - 1, adj);
    let q = rembourre(contenu_ecrit(ts[m - 1], adj));
    lemme_corps_longueur(ts, k, adj);
    if k < m - 1 {
        lemme_corps_table(ts, m - 1, k, adj);
        lemme_longueur_croissante(ts, k, m - 1);
        assert(corps(ts, m, adj).subrange(longueur_corps(ts, k), longueur_corps(ts, k) + ts[k].1.len())
            =~= p.subrange(longueur_corps(ts, k), longueur_corps(ts, k) + ts[k].1.len()));
    } else {
        assert(corps(ts, m, adj).subrange(longueur_corps(ts, k), longueur_corps(ts, k) + ts[k].1.len())
            =~= contenu_ecrit(ts[k], adj));
    }
}


/// A read inside a window of a sequence reads the window.
proof fn lemme_lu32_fenetre(x: Seq<u8>, at: int, y: Seq<u8>, o: int)
    requires
        0 <= at,
        0 <= o,
        o + 4 <= y.len(),
        at + y.len() <= x.len(),
        y == x.subrange(at, at + y.len()),
    ensures
        lu32(x, at + o) == lu32(y, o),
{
    assert(y[o] == x[at + o]);
    assert(y[o + 1] == x[at + o + 1]);
    assert(y[o + 2] == x[at + o + 2]);
    assert(y[o + 3] == x[at + o + 3]);
}

/// The first table of `ts` from `i` on that carries `t`.
pub open spec fn premier(ts: Seq<(u32, Seq<u8>)>, t: u32, i: int) -> Option<int>
    decreases ts.len() - i,
{
    if i < 0 || i >= ts.len() {
        None
    } else if ts[i].0 == t {
        Some(i)
    } else {
        premier(ts, t, i + 1)
    }
}

/// Tables a single-face file can list: few enough to count on 16 bits,
/// each with a length and an offset that fit the directory's 32 bits.
pub open spec fn ecrivables(ts: Seq<(u32, Seq<u8>)>) -> bool {
    &&& ts.len() <= 14
    &&& forall|k: int| 0 <= k < ts.len() ==> 0 <= #[trigger] decalage(ts, k) <= u32::MAX
    &&& forall|k: int| 0 <= k < ts.len() ==> (#[trigger] ts[k]).1.len() <= u32::MAX
}

proof fn lemme_premier_borne(ts: Seq<(u32, Seq<u8>)>, t: u32, i: int)
    ensures
        premier(ts, t, i) matches Some(k) ==> i <= k < ts.len() && ts[k].0 == t,
    decreases ts.len() - i,
{
    if 0 <= i < ts.len() && ts[i].0 != t {
        lemme_premier_borne(ts, t, i + 1);
    }
}

proof fn lemme_puissance_sous(n: nat)
    requires
        n >= 1,
    ensures
        1 <= puissance2(log2_plancher(n)) <= n,
    decreases n,
{
    if n >= 2 {
        lemme_puissance_sous(n / 2);
        assert(log2_plancher(n) == 1 + log2_plancher(n / 2));
        assert(puissance2(log2_plancher(n)) == 2 * puissance2(log2_plancher(n / 2)));
    } else {
        assert(log2_plancher(n) == 0);
        assert(puissance2(0) == 1);
    }
}

proof fn lemme_entete(version: Seq<u8>, n: nat)
    requires
        version.len() == 4,
        1 <= n <= 14,
    ensures
        entete(version, n).len() == 12,
        entete(version, n).subrange(0, 4) == version,
        entete(version, n).subrange(4, 6) == be16(n as int),
{
    let s = log2_plancher(n);
    let plage = 16 * puissance2(s);
    lemme_log2(n);
    lemme_puissance_sous(n);
    lemme_be16(n as int);
    lemme_be16(plage as int);
    lemme_be16(s as int);
    lemme_be16(16 * n - plage);
    let e = entete(version, n);
    assert(e.subrange(0, 4) =~= version);
    assert(e.subrange(4, 6) =~= be16(n as int));
}

/// The emitted file opens with the face's own signature.
proof fn lemme_fichier_signature(version: Seq<u8>, ts: Seq<(u32, Seq<u8>)>, adj: u32)
    requires
        version.len() == 4,
        1 <= ts.len() <= 14,
    ensures
        fichier(version, ts, adj).len() >= 12,
        fichier(version, ts, adj).subrange(0, 4) == version,
{
    reveal(fichier);
    let e = entete(version, ts.len());
    lemme_entete(version, ts.len());
    let r = repertoire_ecrit(ts, ts.len() as int);
    let c = corps(ts, ts.len() as int, adj);
    assert(fichier(version, ts, adj) == e + r + c);
    assert((e + r + c).subrange(0, 4) =~= e.subrange(0, 4));
}

/// The emitted file's layout: its signature, its table count, and every
/// directory record where the directory puts it.
#[verifier::rlimit(40)]
proof fn lemme_fichier_disposition(version: Seq<u8>, ts: Seq<(u32, Seq<u8>)>, adj: u32)
    requires
        version.len() == 4,
        ts.len() >= 1,
        ecrivables(ts),
    ensures
        fichier(version, ts, adj).len() == 12 + 16 * ts.len() + longueur_corps(ts, ts.len() as int),
        lu32(fichier(version, ts, adj), 0) == lu32(version, 0),
        lu16(fichier(version, ts, adj), 4) == Some(ts.len() as u16),
        forall|k: int| 0 <= k < ts.len() ==> {
            &&& lu32(fichier(version, ts, adj), 12 + 16 * k) == Some((#[trigger] ts[k]).0)
            &&& lu32(fichier(version, ts, adj), 12 + 16 * k + 8) == Some(decalage(ts, k) as u32)
            &&& lu32(fichier(version, ts, adj), 12 + 16 * k + 12) == Some(ts[k].1.len() as u32)
        },
        forall|k: int| 0 <= k < ts.len() ==> fichier(version, ts, adj).subrange(
            decalage(ts, k),
            decalage(ts, k) + (#[trigger] ts[k]).1.len(),
        ) == contenu_ecrit(ts[k], adj),
{
    reveal(fichier);
    let n = ts.len();
    let f = fichier(version, ts, adj);
    let e = entete(version, n);
    lemme_entete(version, n);
    let r = repertoire_ecrit(ts, n as int);
    let c = corps(ts, n as int, adj);
    lemme_repertoire_ecrit(ts, n as int);
    lemme_corps_longueur(ts, n as int, adj);
    assert(f == e + r + c);
    assert(f.subrange(0, 4) =~= version);
    lemme_lu32_fenetre(f, 0, version, 0);
    assert(f.subrange(4, 6) =~= be16(n as int));
    lemme_lu16_local(f, 4, be16(n as int));
    assert forall|k: int| 0 <= k < n implies {
        &&& lu32(f, 12 + 16 * k) == Some((#[trigger] ts[k]).0)
        &&& lu32(f, 12 + 16 * k + 8) == Some(decalage(ts, k) as u32)
        &&& lu32(f, 12 + 16 * k + 12) == Some(ts[k].1.len() as u32)
    } by {
        let en = enregistrement(ts, k);
        lemme_enregistrement(ts, k);
        assert(r.subrange(16 * k, 16 * k + 16) == en);
        assert(f.subrange(12 + 16 * k, 12 + 16 * k + 16) =~= en);
        lemme_lu32_fenetre(f, 12 + 16 * k, en, 0);
        lemme_lu32_fenetre(f, 12 + 16 * k, en, 8);
        lemme_lu32_fenetre(f, 12 + 16 * k, en, 12);
    }
    assert forall|k: int| 0 <= k < n implies f.subrange(
        decalage(ts, k),
        decalage(ts, k) + (#[trigger] ts[k]).1.len(),
    ) == contenu_ecrit(ts[k], adj) by {
        lemme_corps_table(ts, n as int, k, adj);
        lemme_longueur_croissante(ts, k, n as int);
        lemme_corps_longueur(ts, k, adj);
        assert(f.subrange(decalage(ts, k), decalage(ts, k) + ts[k].1.len()) =~= c.subrange(
            longueur_corps(ts, k),
            longueur_corps(ts, k) + ts[k].1.len(),
        ));
    }
}


proof fn lemme_cherche_fichier(version: Seq<u8>, ts: Seq<(u32, Seq<u8>)>, adj: u32, t: u32, i: int)
    requires
        version.len() == 4,
        ts.len() >= 1,
        ecrivables(ts),
        0 <= i <= ts.len(),
    ensures
        cherche_table(fichier(version, ts, adj), 0, t, i, ts.len() as int) == match premier(ts, t, i) {
            Some(k) => Some((decalage(ts, k), ts[k].1.len() as int)),
            None => None,
        },
    decreases ts.len() - i,
{
    lemme_fichier_disposition(version, ts, adj);
    if i < ts.len() {
        assert(lu32(fichier(version, ts, adj), 12 + 16 * i) == Some(ts[i].0));
        assert(lu32(fichier(version, ts, adj), 12 + 16 * i + 8) == Some(decalage(ts, i) as u32));
        assert(lu32(fichier(version, ts, adj), 12 + 16 * i + 12) == Some(ts[i].1.len() as u32));
        if ts[i].0 != t {
            lemme_cherche_fichier(version, ts, adj, t, i + 1);
        }
    }
}

/// Every table of the emitted file reads back as written: the first table
/// of its tag, `head` with its adjustment, and nothing for a tag not kept.
pub proof fn lemme_contenu_fichier(version: Seq<u8>, ts: Seq<(u32, Seq<u8>)>, adj: u32, t: u32)
    requires
        version.len() == 4,
        ts.len() >= 1,
        ecrivables(ts),
    ensures
        contenu_table(fichier(version, ts, adj), 0, t) == match premier(ts, t, 0) {
            Some(k) => Some(contenu_ecrit(ts[k], adj)),
            None => None,
        },
        place_table(fichier(version, ts, adj), 0, t) is Some <==> premier(ts, t, 0) is Some,
{
    let f = fichier(version, ts, adj);
    lemme_fichier_disposition(version, ts, adj);
    lemme_cherche_fichier(version, ts, adj, t, 0);
    lemme_premier_borne(ts, t, 0);
    assert(place_table(f, 0, t) == cherche_table(f, 0, t, 0, ts.len() as int));
    if let Some(k) = premier(ts, t, 0) {
        lemme_longueur_croissante(ts, k, ts.len() as int);
        lemme_corps_longueur(ts, k, adj);
    }
}


// --- The kept tables ---------------------------------------------------------------------

/// Where a tag stands in the writer's order, if it stands there at all.
pub open spec fn rang_tag(t: u32) -> Option<int> {
    if t == TAG_CFF { Some(0) }
    else if t == TAG_OS2 { Some(1) }
    else if t == TAG_CMAP { Some(2) }
    else if t == TAG_CVT { Some(3) }
    else if t == TAG_FPGM { Some(4) }
    else if t == TAG_GLYF { Some(5) }
    else if t == TAG_HEAD { Some(6) }
    else if t == TAG_HHEA { Some(7) }
    else if t == TAG_HMTX { Some(8) }
    else if t == TAG_LOCA { Some(9) }
    else if t == TAG_MAXP { Some(10) }
    else if t == TAG_NAME { Some(11) }
    else if t == TAG_POST { Some(12) }
    else if t == TAG_PREP { Some(13) }
    else { None }
}

/// What the first `k` steps of the writer keep of tag `t`.
pub open spec fn attendu(d: Seq<u8>, dir: int, g: Genre, t: u32, k: int) -> Option<Seq<u8>> {
    if gardee(g, t) && (rang_tag(t) matches Some(j) && j < k) {
        contenu_table(d, dir, t)
    } else {
        None
    }
}

proof fn lemme_premier_push(s: Seq<(u32, Seq<u8>)>, x: (u32, Seq<u8>), t: u32, i: int)
    requires
        0 <= i <= s.len(),
    ensures
        premier(s.push(x), t, i) == match premier(s, t, i) {
            Some(k) => Some(k),
            None => if x.0 == t { Some(s.len() as int) } else { None },
        },
    decreases s.len() - i,
{
    if i < s.len() {
        assert(s.push(x)[i] == s[i]);
        if s[i].0 != t {
            lemme_premier_push(s, x, t, i + 1);
        }
    } else {
        assert(s.push(x)[i] == x);
        assert(premier(s.push(x), t, i + 1) is None);
    }
}

/// What the writer keeps, tag by tag: the table the face holds under that
/// tag, when the tag is on the kept list and the table reads whole.
proof fn lemme_tables_choisies(d: Seq<u8>, dir: int, g: Genre, k: int)
    requires
        0 <= k <= NOMBRE_DE_TAGS,
    ensures
        tables_choisies(d, dir, g, k).len() <= k,
        forall|i: int| 0 <= i < tables_choisies(d, dir, g, k).len()
            ==> (#[trigger] tables_choisies(d, dir, g, k)[i]).1.len() <= u32::MAX,
        forall|t: u32| (match #[trigger] premier(tables_choisies(d, dir, g, k), t, 0) {
            Some(i) => Some(tables_choisies(d, dir, g, k)[i].1),
            None => None,
        }) == attendu(d, dir, g, t, k),
    decreases k,
{
    if k > 0 {
        lemme_tables_choisies(d, dir, g, k - 1);
        let avant = tables_choisies(d, dir, g, k - 1);
        let x = tag_ordre(k - 1);
        lemme_contenu_table_borne(d, dir, x);
        assert forall|t: u32| (match #[trigger] premier(tables_choisies(d, dir, g, k), t, 0) {
            Some(i) => Some(tables_choisies(d, dir, g, k)[i].1),
            None => None,
        }) == attendu(d, dir, g, t, k) by {
            assert(premier(avant, t, 0) is Some ==> attendu(d, dir, g, t, k - 1) is Some);
            match contenu_table(d, dir, x) {
                Some(b) => if gardee(g, x) {
                    lemme_premier_push(avant, (x, b), t, 0);
                    lemme_premier_borne(avant, t, 0);
                    match premier(avant, t, 0) {
                        Some(i) => {
                            assert(avant.push((x, b))[i] == avant[i]);
                        },
                        None => {},
                    }
                },
                None => {},
            }
        }
        match contenu_table(d, dir, x) {
            Some(b) => if gardee(g, x) {
                assert forall|i: int| 0 <= i < avant.push((x, b)).len()
                    implies (#[trigger] avant.push((x, b))[i]).1.len() <= u32::MAX by {
                    if i < avant.len() {
                        assert(avant.push((x, b))[i] == avant[i]);
                    }
                }
            },
            None => {},
        }
    }
}


// --- The round trip ----------------------------------------------------------------------

/// `head` as written differs from `head` as read only in its checksum
/// adjustment, bytes 8 to 11: every field the reader takes lies past it.
proof fn lemme_head(b: Seq<u8>, adj: u32, at: int)
    requires
        at >= 12,
    ensures
        lu16(contenu_ecrit((TAG_HEAD, b), adj), at) == lu16(b, at),
{
    lemme_be32(adj as int);
    let h = contenu_ecrit((TAG_HEAD, b), adj);
    if b.len() >= 12 {
        assert(h.len() == b.len());
        if at + 2 <= b.len() {
            assert(h[at] == b[at]);
            assert(h[at + 1] == b[at + 1]);
        }
    }
}

/// A table the writer keeps whatever the outlines reads back unchanged.
proof fn lemme_table_commune(
    d: Seq<u8>,
    dir: int,
    g: Genre,
    version: Seq<u8>,
    ts: Seq<(u32, Seq<u8>)>,
    adj: u32,
    t: u32,
)
    requires
        version.len() == 4,
        ts == tables_choisies(d, dir, g, NOMBRE_DE_TAGS as int),
        ts.len() >= 1,
        ecrivables(ts),
    ensures
        contenu_table(fichier(version, ts, adj), 0, t) == match attendu(d, dir, g, t, NOMBRE_DE_TAGS as int) {
            Some(b) => Some(contenu_ecrit((t, b), adj)),
            None => None,
        },
        place_table(fichier(version, ts, adj), 0, t) is Some <==> attendu(d, dir, g, t, NOMBRE_DE_TAGS as int) is Some,
{
    lemme_tables_choisies(d, dir, g, NOMBRE_DE_TAGS as int);
    lemme_contenu_fichier(version, ts, adj, t);
    lemme_premier_borne(ts, t, 0);
    assert((match premier(ts, t, 0) {
        Some(i) => Some(ts[i].1),
        None => None,
    }) == attendu(d, dir, g, t, NOMBRE_DE_TAGS as int));
}

/// Where the extracted face's directory stands in the file it came from.
pub open spec fn rep_de(d: Seq<u8>, index: u32) -> int {
    repertoire(d, index).unwrap()
}

/// The extracted face's outlines.
pub open spec fn genre_ext(d: Seq<u8>, index: u32) -> Genre {
    lecture_face(d, index).unwrap().genre.unwrap()
}

/// The tables the writer keeps of that face.
pub open spec fn tables_ext(d: Seq<u8>, index: u32) -> Seq<(u32, Seq<u8>)> {
    tables_choisies(d, rep_de(d, index), genre_ext(d, index), NOMBRE_DE_TAGS as int)
}

/// The face's own signature.
pub open spec fn version_ext(d: Seq<u8>, index: u32) -> Seq<u8> {
    d.subrange(rep_de(d, index), rep_de(d, index) + 4)
}

proof fn lemme_extraction_faits(d: Seq<u8>, index: u32, out: Seq<u8>)
    requires
        extraction(d, index) == Ok::<Seq<u8>, Refus>(out),
    ensures
        lecture_face(d, index) is Ok,
        lecture_face(d, index).unwrap().refus is None,
        lecture_face(d, index).unwrap().genre == Some(genre_ext(d, index)),
        genre_ext(d, index) == Genre::Glyf || genre_ext(d, index) == Genre::Cff,
        repertoire(d, index) == Some(rep_de(d, index)),
        0 <= rep_de(d, index),
        rep_de(d, index) + 4 <= d.len(),
        lu32(d, rep_de(d, index)) matches Some(sig) && signature_sfnt(sig),
        !manque_requise(d, rep_de(d, index), genre_ext(d, index)),
        version_ext(d, index).len() == 4,
        ecrivables(tables_ext(d, index)),
        tables_ext(d, index).len() >= 1,
        out == fichier(version_ext(d, index), tables_ext(d, index), ajustement(
            fichier(version_ext(d, index), tables_ext(d, index), 0),
        )),
{
    lemme_lecture_face(d, index);
    let dir = rep_de(d, index);
    let g = genre_ext(d, index);
    let ts = tables_ext(d, index);
    let n = NOMBRE_DE_TAGS as int;
    assert(repertoire_annonce(d, index) is Some);
    assert(!trop_long(ts));
    lemme_tables_choisies(d, dir, g, n);
    assert forall|k: int| 0 <= k < ts.len() implies 0 <= #[trigger] decalage(ts, k) <= u32::MAX by {
        lemme_corps_longueur(ts, k, 0);
    }
    assert(requise(g, tag_ordre(6)));
    assert(contenu_table(d, dir, TAG_HEAD) is Some);
    assert(attendu(d, dir, g, TAG_HEAD, n) is Some);
    assert(premier(ts, TAG_HEAD, 0) is Some);
    lemme_premier_borne(ts, TAG_HEAD, 0);
}

pub open spec fn adj_ext(d: Seq<u8>, index: u32) -> u32 {
    ajustement(fichier(version_ext(d, index), tables_ext(d, index), 0))
}

/// One table, read back out of the extracted file.
proof fn lemme_table_relue(d: Seq<u8>, index: u32, out: Seq<u8>, t: u32)
    requires
        extraction(d, index) == Ok::<Seq<u8>, Refus>(out),
    ensures
        contenu_table(out, 0, t) == match attendu(d, rep_de(d, index), genre_ext(d, index), t, NOMBRE_DE_TAGS as int) {
            Some(b) => Some(contenu_ecrit((t, b), adj_ext(d, index))),
            None => None,
        },
        place_table(out, 0, t) is Some <==> attendu(d, rep_de(d, index), genre_ext(d, index), t, NOMBRE_DE_TAGS as int) is Some,
{
    lemme_extraction_faits(d, index, out);
    lemme_table_commune(d, rep_de(d, index), genre_ext(d, index), version_ext(d, index), tables_ext(d, index), adj_ext(d, index), t);
}

/// A table kept whatever the outlines, other than `head`, reads back as it was.
#[verifier::spinoff_prover]
proof fn lemme_table_partagee(d: Seq<u8>, index: u32, out: Seq<u8>, t: u32)
    requires
        extraction(d, index) == Ok::<Seq<u8>, Refus>(out),
        t == TAG_NAME || t == TAG_CMAP || t == TAG_HHEA || t == TAG_HMTX || t == TAG_MAXP || t == TAG_OS2 || t == TAG_POST,
    ensures
        contenu_table(out, 0, t) == contenu_table(d, rep_de(d, index), t),
{
    lemme_table_relue(d, index, out, t);
    assert(gardee(genre_ext(d, index), t));
    assert(rang_tag(t) is Some);
}

#[verifier::spinoff_prover]
proof fn lemme_head_relu(d: Seq<u8>, index: u32, out: Seq<u8>)
    requires
        extraction(d, index) == Ok::<Seq<u8>, Refus>(out),
    ensures
        contenu_table(out, 0, TAG_HEAD) is Some <==> contenu_table(d, rep_de(d, index), TAG_HEAD) is Some,
        contenu_table(out, 0, TAG_HEAD) matches Some(hh) ==> contenu_table(d, rep_de(d, index), TAG_HEAD)
            matches Some(hb) && forall|at: int| at >= 12 ==> #[trigger] lu16(hh, at) == lu16(hb, at),
{
    lemme_table_relue(d, index, out, TAG_HEAD);
    assert(gardee(genre_ext(d, index), TAG_HEAD));
    if let Some(hh) = contenu_table(out, 0, TAG_HEAD) {
        let hb = contenu_table(d, rep_de(d, index), TAG_HEAD).unwrap();
        assert forall|at: int| at >= 12 implies #[trigger] lu16(hh, at) == lu16(hb, at) by {
            lemme_head(hb, adj_ext(d, index), at);
        }
    }
}

#[verifier::spinoff_prover]
proof fn lemme_genre_relu(d: Seq<u8>, index: u32, out: Seq<u8>)
    requires
        extraction(d, index) == Ok::<Seq<u8>, Refus>(out),
    ensures
        place_table(out, 0, TAG_FVAR) is None,
        genre_de(out, 0) == Some(genre_ext(d, index)),
{
    lemme_extraction_faits(d, index, out);
    lemme_lecture_face(d, index);
    let dir = rep_de(d, index);
    let g = genre_ext(d, index);
    lemme_table_relue(d, index, out, TAG_FVAR);
    lemme_table_relue(d, index, out, TAG_CFF2);
    lemme_table_relue(d, index, out, TAG_GLYF);
    lemme_table_relue(d, index, out, TAG_CFF);
    reveal(lecture_face);
    assert(genre_de(d, dir) == Some(g));
    if g == Genre::Glyf {
        assert(requise(g, tag_ordre(5)));
        assert(contenu_table(d, dir, TAG_GLYF) is Some);
        assert(place_table(out, 0, TAG_GLYF) is Some);
    } else {
        assert(place_table(d, dir, TAG_GLYF) is None);
        assert(contenu_table(d, dir, TAG_GLYF) is None);
        assert(place_table(out, 0, TAG_GLYF) is None);
        assert(requise(g, tag_ordre(0)));
        assert(contenu_table(d, dir, TAG_CFF) is Some);
        assert(place_table(out, 0, TAG_CFF) is Some);
    }
}

#[verifier::spinoff_prover]
proof fn lemme_entete_relu(d: Seq<u8>, index: u32, out: Seq<u8>)
    requires
        extraction(d, index) == Ok::<Seq<u8>, Refus>(out),
    ensures
        out.len() >= 4,
        out.subrange(0, 4) == version_ext(d, index),
        !est_collection(out),
        repertoire(out, 0) == Some(0int),
        repertoire_annonce(out, 1) is None,
{
    lemme_extraction_faits(d, index, out);
    let dir = rep_de(d, index);
    let version = version_ext(d, index);
    let ts = tables_ext(d, index);
    lemme_fichier_signature(version, ts, adj_ext(d, index));
    lemme_lu32_fenetre(d, dir, version, 0);
    lemme_lu32_fenetre(out, 0, version, 0);
    assert(out.subrange(0, 4) =~= version);
}

proof fn lemme_tables_relues(d: Seq<u8>, index: u32, out: Seq<u8>)
    requires
        extraction(d, index) == Ok::<Seq<u8>, Refus>(out),
    ensures
        out.len() >= 4,
        out.subrange(0, 4) == version_ext(d, index),
        !est_collection(out),
        repertoire(out, 0) == Some(0int),
        repertoire_annonce(out, 1) is None,
        contenu_table(out, 0, TAG_NAME) == contenu_table(d, rep_de(d, index), TAG_NAME),
        contenu_table(out, 0, TAG_CMAP) == contenu_table(d, rep_de(d, index), TAG_CMAP),
        contenu_table(out, 0, TAG_HHEA) == contenu_table(d, rep_de(d, index), TAG_HHEA),
        contenu_table(out, 0, TAG_HMTX) == contenu_table(d, rep_de(d, index), TAG_HMTX),
        contenu_table(out, 0, TAG_MAXP) == contenu_table(d, rep_de(d, index), TAG_MAXP),
        contenu_table(out, 0, TAG_OS2) == contenu_table(d, rep_de(d, index), TAG_OS2),
        contenu_table(out, 0, TAG_POST) == contenu_table(d, rep_de(d, index), TAG_POST),
        contenu_table(out, 0, TAG_HEAD) is Some <==> contenu_table(d, rep_de(d, index), TAG_HEAD) is Some,
        contenu_table(out, 0, TAG_HEAD) matches Some(hh) ==> contenu_table(d, rep_de(d, index), TAG_HEAD)
            matches Some(hb) && forall|at: int| at >= 12 ==> #[trigger] lu16(hh, at) == lu16(hb, at),
        place_table(out, 0, TAG_FVAR) is None,
        genre_de(out, 0) == Some(genre_ext(d, index)),
{
    lemme_entete_relu(d, index, out);
    lemme_table_partagee(d, index, out, TAG_NAME);
    lemme_table_partagee(d, index, out, TAG_CMAP);
    lemme_table_partagee(d, index, out, TAG_HHEA);
    lemme_table_partagee(d, index, out, TAG_HMTX);
    lemme_table_partagee(d, index, out, TAG_MAXP);
    lemme_table_partagee(d, index, out, TAG_OS2);
    lemme_table_partagee(d, index, out, TAG_POST);
    lemme_head_relu(d, index, out);
    lemme_genre_relu(d, index, out);
}

/// An extracted face reads back as the face it came from: the file holds
/// one face, under the original's own signature; that face has the same
/// names, outlines, licence, metrics and refusal, and no variation table;
/// opened for writing, it sets every glyph with the same advance and maps
/// characters through the same subtable.
pub proof fn loi_une_face_extraite_se_relit(d: Seq<u8>, index: u32, out: Seq<u8>)
    requires
        extraction(d, index) == Ok::<Seq<u8>, Refus>(out),
    ensures
        nombre_de_faces(out) == 1,
        out.len() >= 4,
        repertoire(d, index) matches Some(dir) && out.subrange(0, 4) == d.subrange(dir, dir + 4),
        lecture_face(out, 1) == Err::<VueFace, Refus>(Refus::Illisible),
        lecture_face(d, index) matches Ok(a) && lecture_face(out, 0) == Ok::<VueFace, Refus>(
            VueFace { index: 0, variable: false, ..a },
        ),
        ouverture(d, index) matches Ok(a) && ouverture(out, 0) == Ok::<VueEmbarquee, Refus>(
            VueEmbarquee { data: out, ..a },
        ),
{
    lemme_extraction_faits(d, index, out);
    lemme_tables_relues(d, index, out);
    let dir = rep_de(d, index);
    let f = lecture_face(d, index).unwrap();
    assert(lecture_communes(out, 0) == lecture_communes(d, dir));
    reveal(lecture_face);
    assert(lecture_face(out, 0) == Ok::<VueFace, Refus>(VueFace { index: 0, variable: false, ..f }));
    assert(lecture_face(out, 1) == Err::<VueFace, Refus>(Refus::Illisible));
}

} // verus!
