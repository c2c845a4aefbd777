//! The album's text face, and every face a machine carries: a TrueType /
//! OpenType reader and the writer that pulls one face out of its file.
//!
//! Every offset and every length comes out of the file being read, so every
//! access is a bounded read that answers `None` rather than arithmetic that
//! could overflow, and anything unreadable comes back as a refusal carrying
//! its reason. The specifications below describe the sfnt layout the reader
//! walks: the collection header, the table directory, the `name`, `cmap`
//! and `hmtx` tables, and the file the writer emits.
//!
//! A table tag is four ASCII bytes; here it is carried as the big-endian
//! `u32` those bytes spell, so that comparing two tags, and ordering them as
//! the directory requires, is comparing two integers.

use vstd::prelude::*;
use crate::octets::{lu16, lu32, signe16, signe32, u16b, i16b, u32b, i32b};
use crate::chaines::car_de;
use vstd::std_specs::iter::IteratorSpec;
use vstd::std_specs::cmp::OrdSpec;

verus! {

// --- Tags ---------------------------------------------------------------

pub const TAG_TTCF: u32 = 0x7474_6366;
pub const TAG_HEAD: u32 = 0x6865_6164;
pub const TAG_HHEA: u32 = 0x6868_6561;
pub const TAG_HMTX: u32 = 0x686d_7478;
pub const TAG_MAXP: u32 = 0x6d61_7870;
pub const TAG_CMAP: u32 = 0x636d_6170;
pub const TAG_NAME: u32 = 0x6e61_6d65;
pub const TAG_OS2: u32 = 0x4f53_2f32;
pub const TAG_POST: u32 = 0x706f_7374;
pub const TAG_GLYF: u32 = 0x676c_7966;
pub const TAG_LOCA: u32 = 0x6c6f_6361;
pub const TAG_CVT: u32 = 0x6376_7420;
pub const TAG_FPGM: u32 = 0x6670_676d;
pub const TAG_PREP: u32 = 0x7072_6570;
pub const TAG_CFF: u32 = 0x4346_4620;
pub const TAG_CFF2: u32 = 0x4346_4632;
pub const TAG_FVAR: u32 = 0x6676_6172;

/// The four signatures a table directory may open with: TrueType
/// (`00 01 00 00` and Apple's `true`), CFF (`OTTO`) and `typ1`.
pub open spec fn signature_sfnt(v: u32) -> bool {
    v == 0x0001_0000 || v == 0x7472_7565 || v == 0x4f54_544f || v == 0x7479_7031
}

/// The most faces a collection is believed on. A header can claim any
/// 32-bit count; a file that claims more than this is read for its first
/// faces and no further.
pub const FACES_MAX: u32 = 256;

// --- Collection header and directory ------------------------------------

/// The file opens with `ttcf`: a collection of faces.
pub open spec fn est_collection(d: Seq<u8>) -> bool {
    lu32(d, 0) == Some(TAG_TTCF)
}

/// How many faces a file carries. A collection says so, bounded by what the
/// file is long enough to list and by [`FACES_MAX`]; anything else is one
/// face, including a file that is no font at all.
pub open spec fn nombre_de_faces(d: Seq<u8>) -> u32 {
    if !est_collection(d) {
        1
    } else {
        let plafond: int = if d.len() >= 12 { (d.len() - 12) / 4 } else { 0 };
        let dit: int = match lu32(d, 8) {
            Some(v) => v as int,
            None => 0,
        };
        let m = if dit < plafond { dit } else { plafond };
        (if m < FACES_MAX as int { m } else { FACES_MAX as int }) as u32
    }
}

/// Where face `index`'s directory is said to start, signature unchecked.
pub open spec fn repertoire_annonce(d: Seq<u8>, index: u32) -> Option<int> {
    if est_collection(d) {
        if index >= nombre_de_faces(d) {
            None
        } else {
            match lu32(d, 12 + 4 * index as int) {
                Some(v) => Some(v as int),
                None => None,
            }
        }
    } else if index == 0 {
        Some(0)
    } else {
        None
    }
}

/// Where face `index`'s directory starts, when it starts with a signature.
/// Tables are addressed from the start of the file, in a collection too.
pub open spec fn repertoire(d: Seq<u8>, index: u32) -> Option<int> {
    match repertoire_annonce(d, index) {
        Some(dir) => match lu32(d, dir) {
            Some(sig) => if signature_sfnt(sig) { Some(dir) } else { None },
            None => None,
        },
        None => None,
    }
}

/// The directory at `dir` searched from record `i` on, out of `n`.
pub open spec fn cherche_table(d: Seq<u8>, dir: int, tag: u32, i: int, n: int) -> Option<
    (int, int),
>
    decreases n - i,
{
    if i >= n || i < 0 {
        None
    } else {
        let rec = dir + 12 + 16 * i;
        match lu32(d, rec) {
            None => None,
            Some(t) => if t == tag {
                match (lu32(d, rec + 8), lu32(d, rec + 12)) {
                    (Some(off), Some(len)) => Some((off as int, len as int)),
                    _ => None,
                }
            } else {
                cherche_table(d, dir, tag, i + 1, n)
            },
        }
    }
}

/// Where a table says it is, `(offset, length)`, before any bounds check.
/// A record that runs off the end of the file ends the search.
pub open spec fn place_table(d: Seq<u8>, dir: int, tag: u32) -> Option<(int, int)> {
    match lu16(d, dir + 4) {
        Some(n) => cherche_table(d, dir, tag, 0, n as int),
        None => None,
    }
}

/// A table's bytes, when the file holds all of them.
pub open spec fn contenu_table(d: Seq<u8>, dir: int, tag: u32) -> Option<Seq<u8>> {
    match place_table(d, dir, tag) {
        Some((off, len)) => if off + len <= d.len() {
            Some(d.subrange(off, off + len))
        } else {
            None
        },
        None => None,
    }
}

pub proof fn lemme_cherche_table_borne(d: Seq<u8>, dir: int, tag: u32, i: int, n: int)
    ensures
        cherche_table(d, dir, tag, i, n) matches Some((off, len)) ==> 0 <= off <= u32::MAX && 0
            <= len <= u32::MAX,
    decreases n - i,
{
    if i < n && i >= 0 {
        lemme_cherche_table_borne(d, dir, tag, i + 1, n);
    }
}

/// How many faces a file carries.
pub fn face_count(data: &[u8]) -> (r: u32)
    ensures
        r == nombre_de_faces(data@),
        1 <= r || est_collection(data@),
        r <= FACES_MAX,
{
    if u32b(data, 0) != Some(TAG_TTCF) {
        return 1;
    }
    let plafond: usize = if data.len() >= 12 { (data.len() - 12) / 4 } else { 0 };
    let dit: u64 = match u32b(data, 8) {
        Some(v) => v as u64,
        None => 0,
    };
    let m: u64 = if dit < plafond as u64 { dit } else { plafond as u64 };
    if m < FACES_MAX as u64 { m as u32 } else { FACES_MAX }
}

/// Where face `index`'s directory is said to start.
fn dir_offset(data: &[u8], index: u32) -> (r: Option<usize>)
    ensures
        r matches Some(v) ==> repertoire_annonce(data@, index) == Some(v as int),
        r is None ==> repertoire_annonce(data@, index) is None,
{
    if u32b(data, 0) == Some(TAG_TTCF) {
        if index >= face_count(data) {
            return None;
        }
        let at: usize = 12 + 4 * (index as usize);
        match u32b(data, at) {
            Some(v) => Some(v as usize),
            None => None,
        }
    } else if index == 0 {
        Some(0)
    } else {
        None
    }
}

/// Where face `index`'s table directory starts.
pub fn sfnt_dir(data: &[u8], index: u32) -> (r: Option<usize>)
    ensures
        r matches Some(v) ==> repertoire(data@, index) == Some(v as int),
        r is None ==> repertoire(data@, index) is None,
{
    let dir = match dir_offset(data, index) {
        Some(dir) => dir,
        None => return None,
    };
    match u32b(data, dir) {
        Some(sig) => {
            if sig == 0x0001_0000 || sig == 0x7472_7565 || sig == 0x4f54_544f || sig
                == 0x7479_7031 {
                Some(dir)
            } else {
                None
            }
        },
        None => None,
    }
}

/// Where a table says it is.
pub fn table_range(data: &[u8], dir: usize, tag: u32) -> (r: Option<(usize, usize)>)
    ensures
        r matches Some((o, l)) ==> place_table(data@, dir as int, tag) == Some((o as int, l as int)),
        r is None ==> place_table(data@, dir as int, tag) is None,
{
    assert(data@.len() == data.len());
    if dir > usize::MAX - 4 {
        return None;
    }
    let count = match u16b(data, dir + 4) {
        Some(c) => c as usize,
        None => return None,
    };
    let mut i: usize = 0;
    while i < count
        invariant
            lu16(data@, dir + 4) == Some(count as u16),
            i <= count,
            place_table(data@, dir as int, tag) == cherche_table(
                data@,
                dir as int,
                tag,
                i as int,
                count as int,
            ),
        decreases count - i,
    {
        if dir >= data.len() || data.len() - dir < 12 || (data.len() - dir - 12) / 16 < i {
            return None;
        }
        let rec = dir + 12 + 16 * i;
        match u32b(data, rec) {
            None => return None,
            Some(t) => {
                if t == tag {
                    if rec > usize::MAX - 12 {
                        return None;
                    }
                    match (u32b(data, rec + 8), u32b(data, rec + 12)) {
                        (Some(off), Some(len)) => return Some((off as usize, len as usize)),
                        _ => return None,
                    }
                }
            },
        }
        i = i + 1;
    }
    None
}

/// A table's bytes.
pub fn table(data: &[u8], dir: usize, tag: u32) -> (r: Option<&[u8]>)
    ensures
        r matches Some(t) ==> contenu_table(data@, dir as int, tag) == Some(t@),
        r is None ==> contenu_table(data@, dir as int, tag) is None,
{
    match table_range(data, dir, tag) {
        Some((off, len)) => {
            if off <= data.len() && len <= data.len() - off {
                Some(vstd::slice::slice_subrange(data, off, off + len))
            } else {
                None
            }
        },
        None => None,
    }
}

} // verus!

verus! {

// --- The `name` table ---------------------------------------------------

/// UTF-16 decoding, as `String::from_utf16` does it: a lone or reversed
/// surrogate is an error.
pub open spec fn decode_utf16(u: Seq<u16>) -> Option<Seq<char>>
    decreases u.len(),
{
    if u.len() == 0 {
        Some(Seq::<char>::empty())
    } else if u[0] < 0xD800 || u[0] >= 0xE000 {
        match decode_utf16(u.drop_first()) {
            Some(r) => Some(seq![(u[0] as u32) as char] + r),
            None => None,
        }
    } else if u[0] < 0xDC00 && u.len() >= 2 && 0xDC00 <= u[1] && u[1] < 0xE000 {
        let cp: u32 = (0x10000 + (u[0] - 0xD800) * 0x400 + (u[1] - 0xDC00)) as u32;
        match decode_utf16(u.subrange(2, u.len() as int)) {
            Some(r) => Some(seq![cp as char] + r),
            None => None,
        }
    } else {
        None
    }
}

/// The 16-bit units a big-endian byte string holds.
pub open spec fn unites16(b: Seq<u8>) -> Seq<u16> {
    Seq::new(b.len() / 2, |k: int| (b[2 * k] as int * 256 + b[2 * k + 1] as int) as u16)
}

/// A name stored as UTF-16BE, as platforms 3 and 0 store theirs. An odd
/// length or a broken surrogate pair is a name we do not have.
pub open spec fn nom_utf16be(b: Seq<u8>) -> Option<Seq<char>> {
    if b.len() % 2 != 0 {
        None
    } else {
        decode_utf16(unites16(b))
    }
}

/// The upper half of MacRoman, which is what a Macintosh-platform `name`
/// record is written in; the lower half is ASCII. 0xF0 is Apple's own logo,
/// which Unicode leaves in the private use area.
pub const MACROMAN_HAUT: &'static str = "ÄÅÇÉÑÖÜáàâäãåçéèêëíìîïñóòôöõúùûü†°¢£§•¶ß®©™´¨≠ÆØ∞±≤≥¥µ∂∑∏π∫ªºΩæø¿¡¬√ƒ≈∆«»…\u{00a0}ÀÃÕŒœ–—“”‘’÷◊ÿŸ⁄€‹›ﬁﬂ‡·‚„‰ÂÊÁËÈÍÎÏÌÓÔ\u{f8ff}ÒÚÛÙıˆ˜¯˘˙˚¸˝˛ˇ";

/// One MacRoman byte.
pub open spec fn car_macroman(b: u8) -> char {
    if b < 0x80 {
        b as char
    } else if (b - 0x80) < MACROMAN_HAUT@.len() {
        MACROMAN_HAUT@[b - 0x80]
    } else {
        '\u{fffd}'
    }
}

/// A name stored in MacRoman.
pub open spec fn nom_macroman(b: Seq<u8>) -> Seq<char> {
    Seq::new(b.len(), |k: int| car_macroman(b[k]))
}

/// How much a record's platform and language are worth: English first,
/// platform second. `None` for a platform whose names we do not read.
pub open spec fn rang_nom(plateforme: u16, langue: u16) -> Option<u8> {
    if plateforme == 3 && langue == 0x0409 {
        Some(0)
    } else if plateforme == 1 && langue == 0 {
        Some(1)
    } else if plateforme == 0 {
        Some(2)
    } else if plateforme == 3 {
        Some(3)
    } else if plateforme == 1 {
        Some(4)
    } else {
        None
    }
}

/// Name record `i`, when it names `id`, reads whole, and comes from a
/// platform we read: its rank and its text.
pub open spec fn lecture_nom(name: Seq<u8>, id: u16, stockage: int, i: int) -> Option<
    (u8, Seq<char>),
> {
    let rec = 6 + 12 * i;
    match (lu16(name, rec + 6), lu16(name, rec + 8), lu16(name, rec + 10), lu16(name, rec), lu16(
        name,
        rec + 4,
    )) {
        (Some(v), Some(len), Some(off), Some(plateforme), Some(langue)) => {
            let at = stockage + off as int;
            if v != id || at + len as int > name.len() {
                None
            } else {
                let octets = name.subrange(at, at + len as int);
                match rang_nom(plateforme, langue) {
                    None => None,
                    Some(rang) => if plateforme == 1 {
                        Some((rang, nom_macroman(octets)))
                    } else {
                        match nom_utf16be(octets) {
                            Some(t) => Some((rang, t)),
                            None => None,
                        }
                    },
                }
            }
        },
        _ => None,
    }
}

/// The best of the first `n` records: the first non-empty one of the best
/// rank.
pub open spec fn meilleur_nom(name: Seq<u8>, id: u16, stockage: int, n: int) -> Option<
    (u8, Seq<char>),
>
    decreases n,
{
    if n <= 0 {
        None
    } else {
        let avant = meilleur_nom(name, id, stockage, n - 1);
        match lecture_nom(name, id, stockage, n - 1) {
            Some((rang, s)) => if s.len() > 0 && (avant is None || rang < avant.unwrap().0) {
                Some((rang, s))
            } else {
                avant
            },
            None => avant,
        }
    }
}

/// A string of the `name` table, by name id.
pub open spec fn chaine_du_nom(name: Seq<u8>, id: u16) -> Option<Seq<char>> {
    match (lu16(name, 2), lu16(name, 4)) {
        (Some(n), Some(stockage)) => match meilleur_nom(name, id, stockage as int, n as int) {
            Some((_, s)) => Some(s),
            None => None,
        },
        _ => None,
    }
}

pub proof fn lemme_meilleur_nom_non_vide(name: Seq<u8>, id: u16, stockage: int, n: int)
    ensures
        meilleur_nom(name, id, stockage, n) matches Some((_, s)) ==> s.len() > 0,
    decreases n,
{
    if n > 0 {
        lemme_meilleur_nom_non_vide(name, id, stockage, n - 1);
    }
}

/// UTF-16BE to characters.
fn utf16be(bytes: &[u8]) -> (r: Option<Vec<char>>)
    ensures
        r matches Some(v) ==> nom_utf16be(bytes@) == Some(v@),
        r is None ==> nom_utf16be(bytes@) is None,
{
    if bytes.len() % 2 != 0 {
        return None;
    }
    let ghost u = unites16(bytes@);
    let n = bytes.len() / 2;
    let mut out: Vec<char> = Vec::new();
    let mut i: usize = 0;
    assert(u.subrange(0, n as int) =~= u);
    assert(out@ + Seq::<char>::empty() =~= out@);
    while i < n
        invariant
            n == u.len(),
            bytes@.len() == 2 * n,
            2 * n <= usize::MAX,
            u == unites16(bytes@),
            i <= n,
            decode_utf16(u) == (match decode_utf16(u.subrange(i as int, n as int)) {
                Some(r) => Some(out@ + r),
                None => None,
            }),
        decreases n - i,
    {
        let hi: u16 = bytes[2 * i] as u16;
        let lo: u16 = bytes[2 * i + 1] as u16;
        let a: u16 = hi * 256 + lo;
        assert(a == u[i as int]);
        let ghost reste = u.subrange(i as int, n as int);
        if a < 0xD800 || a >= 0xE000 {
            let c = match car_de(a as u32) {
                Some(c) => c,
                None => return None,
            };
            assert(reste.drop_first() =~= u.subrange(i + 1, n as int));
            let ghost avant = out@;
            out.push(c);
            proof {
                match decode_utf16(u.subrange(i + 1, n as int)) {
                    Some(r) => {
                        assert(avant + (seq![c] + r) =~= out@ + r);
                    },
                    None => {},
                }
            }
            i = i + 1;
        } else if a < 0xDC00 && i + 1 < n {
            let hi2: u16 = bytes[2 * i + 2] as u16;
            let lo2: u16 = bytes[2 * i + 3] as u16;
            let b: u16 = hi2 * 256 + lo2;
            assert(b == u[i + 1]);
            if 0xDC00 <= b && b < 0xE000 {
                let cp: u32 = 0x10000 + (a as u32 - 0xD800) * 0x400 + (b as u32 - 0xDC00);
                let c = match car_de(cp) {
                    Some(c) => c,
                    None => return None,
                };
                assert(reste.subrange(2, reste.len() as int) =~= u.subrange(i + 2, n as int));
                let ghost avant = out@;
                out.push(c);
                proof {
                    match decode_utf16(u.subrange(i + 2, n as int)) {
                        Some(r) => {
                            assert(avant + (seq![c] + r) =~= out@ + r);
                        },
                        None => {},
                    }
                }
                i = i + 2;
            } else {
                return None;
            }
        } else {
            return None;
        }
    }
    assert(out@ + Seq::<char>::empty() =~= out@);
    Some(out)
}

/// MacRoman to characters.
fn macroman(bytes: &[u8]) -> (r: Vec<char>)
    ensures
        r@ == nom_macroman(bytes@),
{
    let haut = crate::chaines::caracteres(MACROMAN_HAUT);
    let mut out: Vec<char> = Vec::new();
    let mut i: usize = 0;
    while i < bytes.len()
        invariant
            i <= bytes@.len(),
            haut@ == MACROMAN_HAUT@,
            out@ == nom_macroman(bytes@).subrange(0, i as int),
        decreases bytes.len() - i,
    {
        let b = bytes[i];
        let c = if b < 0x80 {
            crate::chaines::car_latin1(b)
        } else if ((b - 0x80) as usize) < haut.len() {
            haut[(b - 0x80) as usize]
        } else {
            '\u{fffd}'
        };
        out.push(c);
        i = i + 1;
        assert(out@ =~= nom_macroman(bytes@).subrange(0, i as int));
    }
    assert(nom_macroman(bytes@).subrange(0, i as int) =~= nom_macroman(bytes@));
    out
}

/// Name record `i` of a `name` table.
fn lire_nom(name: &[u8], id: u16, stockage: usize, i: usize) -> (r: Option<(u8, Vec<char>)>)
    requires
        i < 0x1_0000,
        stockage < 0x1_0000,
    ensures
        r matches Some((rang, s)) ==> lecture_nom(name@, id, stockage as int, i as int) == Some(
            (rang, s@),
        ),
        r is None ==> lecture_nom(name@, id, stockage as int, i as int) is None,
{
    let rec = 6 + 12 * i;
    let v = u16b(name, rec + 6);
    let len = u16b(name, rec + 8);
    let off = u16b(name, rec + 10);
    let plateforme = u16b(name, rec);
    let langue = u16b(name, rec + 4);
    match (v, len, off, plateforme, langue) {
        (Some(v), Some(len), Some(off), Some(plateforme), Some(langue)) => {
            let at = stockage + off as usize;
            if v != id || at > name.len() || (len as usize) > name.len() - at {
                return None;
            }
            let octets = vstd::slice::slice_subrange(name, at, at + len as usize);
            let rang: u8 = if plateforme == 3 && langue == 0x0409 {
                0
            } else if plateforme == 1 && langue == 0 {
                1
            } else if plateforme == 0 {
                2
            } else if plateforme == 3 {
                3
            } else if plateforme == 1 {
                4
            } else {
                return None;
            };
            if plateforme == 1 {
                Some((rang, macroman(octets)))
            } else {
                match utf16be(octets) {
                    Some(t) => Some((rang, t)),
                    None => None,
                }
            }
        },
        _ => None,
    }
}

/// A string of the `name` table, by name id, decoded from the platform that
/// carries it; English first, and Windows before Macintosh.
pub fn name_string(name: &[u8], id: u16) -> (r: Option<Vec<char>>)
    ensures
        r matches Some(v) ==> chaine_du_nom(name@, id) == Some(v@) && v@.len() > 0,
        r is None ==> chaine_du_nom(name@, id) is None,
{
    let count = match u16b(name, 2) {
        Some(c) => c as usize,
        None => return None,
    };
    let stockage = match u16b(name, 4) {
        Some(s) => s as usize,
        None => return None,
    };
    let mut best: Option<(u8, Vec<char>)> = None;
    let mut i: usize = 0;
    while i < count
        invariant
            count < 0x1_0000,
            stockage < 0x1_0000,
            i <= count,
            lu16(name@, 2) == Some(count as u16),
            lu16(name@, 4) == Some(stockage as u16),
            best matches Some((r, s)) ==> meilleur_nom(name@, id, stockage as int, i as int) == Some(
                (r, s@),
            ),
            best is None ==> meilleur_nom(name@, id, stockage as int, i as int) is None,
        decreases count - i,
    {
        match lire_nom(name, id, stockage, i) {
            Some((rang, s)) => {
                let mieux = s.len() > 0 && match &best {
                    None => true,
                    Some((r, _)) => rang < *r,
                };
                if mieux {
                    best = Some((rang, s));
                }
            },
            None => {},
        }
        i = i + 1;
    }
    proof {
        lemme_meilleur_nom_non_vide(name@, id, stockage as int, count as int);
    }
    match best {
        Some((_, s)) => Some(s),
        None => None,
    }
}

} // verus!

verus! {

// --- The character map ---------------------------------------------------

/// How much a `cmap` encoding record is worth: Windows BMP, Windows full,
/// then the Unicode platform. A symbol table (3, 0) is not a Unicode map.
pub open spec fn rang_cmap(plateforme: u16, codage: u16) -> Option<u8> {
    if plateforme == 3 && codage == 1 {
        Some(0)
    } else if plateforme == 3 && codage == 10 {
        Some(1)
    } else if plateforme == 0 {
        Some(2)
    } else {
        None
    }
}

/// Encoding record `i`: its rank and where its subtable starts, when the
/// record reads whole, points inside the table, and is a Unicode map.
pub open spec fn entree_cmap(cmap: Seq<u8>, i: int) -> Option<(u8, int)> {
    let rec = 4 + 8 * i;
    match (lu16(cmap, rec), lu16(cmap, rec + 2), lu32(cmap, rec + 4)) {
        (Some(p), Some(e), Some(off)) => if off as int <= cmap.len() {
            match rang_cmap(p, e) {
                Some(r) => Some((r, off as int)),
                None => None,
            }
        } else {
            None
        },
        _ => None,
    }
}

/// The best of the first `n` encoding records; the first of the best rank.
pub open spec fn meilleure_entree_cmap(cmap: Seq<u8>, n: int) -> Option<(u8, int)>
    decreases n,
{
    if n <= 0 {
        None
    } else {
        let avant = meilleure_entree_cmap(cmap, n - 1);
        match entree_cmap(cmap, n - 1) {
            Some((r, off)) => if avant is None || r < avant.unwrap().0 {
                Some((r, off))
            } else {
                avant
            },
            None => avant,
        }
    }
}

/// The preferred Unicode subtable of a `cmap`, from its start to the end of
/// the table.
pub open spec fn sous_table_unicode(cmap: Seq<u8>) -> Option<Seq<u8>> {
    match lu16(cmap, 2) {
        Some(n) => match meilleure_entree_cmap(cmap, n as int) {
            Some((_, off)) => Some(cmap.subrange(off, cmap.len() as int)),
            None => None,
        },
        None => None,
    }
}

pub proof fn lemme_meilleure_entree_cmap(cmap: Seq<u8>, n: int)
    ensures
        meilleure_entree_cmap(cmap, n) matches Some((_, off)) ==> 0 <= off <= cmap.len(),
    decreases n,
{
    if n > 0 {
        lemme_meilleure_entree_cmap(cmap, n - 1);
    }
}

/// `a + d`, wrapped to 16 bits: how a `cmap` delta applies.
pub open spec fn ajoute16(a: u16, d: i16) -> u16 {
    ((a as int + d as int) % 0x1_0000) as u16
}

/// Format 4, segments `i` and up of `n`.
pub open spec fn cherche_segment(sub: Seq<u8>, ch: u16, n: int, i: int) -> Option<u16>
    decreases n - i,
{
    if i >= n || i < 0 {
        Some(0)
    } else {
        match lu16(sub, 14 + 2 * i) {
            None => None,
            Some(fin) => if ch > fin {
                cherche_segment(sub, ch, n, i + 1)
            } else {
                let debuts = 14 + 2 * n + 2;
                let deltas = debuts + 2 * n;
                let decalages = deltas + 2 * n;
                match lu16(sub, debuts + 2 * i) {
                    None => None,
                    Some(debut) => if ch < debut {
                        Some(0)
                    } else {
                        match (lu16(sub, deltas + 2 * i), lu16(sub, decalages + 2 * i)) {
                            (Some(dbrut), Some(dec)) => {
                                let delta = signe16(dbrut);
                                if dec == 0 {
                                    Some(ajoute16(ch, delta))
                                } else {
                                    let at = decalages + 2 * i + dec as int + 2 * (ch - debut);
                                    match lu16(sub, at) {
                                        None => None,
                                        Some(g) => Some(if g == 0 { 0 } else { ajoute16(g, delta) }),
                                    }
                                }
                            },
                            _ => None,
                        }
                    },
                }
            },
        }
    }
}

/// `cmap` format 4: parallel arrays of segments, each mapping a run.
pub open spec fn glyphe_segmente(sub: Seq<u8>, ch: u16) -> Option<u16> {
    match lu16(sub, 6) {
        Some(v) => cherche_segment(sub, ch, v as int / 2, 0),
        None => None,
    }
}

/// Format 12, groups `i` and up of `n`.
pub open spec fn cherche_groupe(sub: Seq<u8>, ch: u32, n: int, i: int) -> Option<u16>
    decreases n - i,
{
    if i >= n || i < 0 {
        Some(0)
    } else {
        let g = 16 + 12 * i;
        match (lu32(sub, g), lu32(sub, g + 4)) {
            (Some(debut), Some(fin)) => if ch < debut {
                Some(0)
            } else if ch <= fin {
                match lu32(sub, g + 8) {
                    None => None,
                    Some(base) => {
                        let gid = (base as int + ch as int - debut as int) % 0x1_0000_0000;
                        if gid < 0x1_0000 {
                            Some(gid as u16)
                        } else {
                            None
                        }
                    },
                }
            } else {
                cherche_groupe(sub, ch, n, i + 1)
            },
            _ => None,
        }
    }
}

/// `cmap` format 12: sorted groups over the whole Unicode range. The start
/// glyph of a group is added to with 32-bit wrap-around, as an optimised
/// build of the reader does.
pub open spec fn glyphe_groupes(sub: Seq<u8>, ch: u32) -> Option<u16> {
    match lu32(sub, 12) {
        Some(n) => cherche_groupe(sub, ch, n as int, 0),
        None => None,
    }
}

/// Glyph id of a character in a subtable: formats 4, 12 and 6. `None` says
/// the subtable is unreadable or in a format this reader does not walk.
pub open spec fn glyphe_de(sub: Seq<u8>, ch: u32) -> Option<u16> {
    match lu16(sub, 0) {
        None => None,
        Some(f) => if f == 4 {
            if ch < 0x1_0000 {
                glyphe_segmente(sub, ch as u16)
            } else {
                None
            }
        } else if f == 12 {
            glyphe_groupes(sub, ch)
        } else if f == 6 {
            match (lu16(sub, 6), lu16(sub, 8)) {
                (Some(premier), Some(nombre)) => if ch < premier {
                    None
                } else if ch - premier >= nombre {
                    Some(0)
                } else {
                    lu16(sub, 10 + 2 * (ch - premier))
                },
                _ => None,
            }
        } else {
            None
        },
    }
}

/// The preferred Unicode subtable of a `cmap`.
pub fn unicode_subtable(cmap: &[u8]) -> (r: Option<&[u8]>)
    ensures
        r matches Some(s) ==> sous_table_unicode(cmap@) == Some(s@),
        r is None ==> sous_table_unicode(cmap@) is None,
{
    let count = match u16b(cmap, 2) {
        Some(c) => c as usize,
        None => return None,
    };
    let mut best: Option<(u8, usize)> = None;
    let mut i: usize = 0;
    while i < count
        invariant
            count < 0x1_0000,
            i <= count,
            lu16(cmap@, 2) == Some(count as u16),
            best matches Some((r, o)) ==> meilleure_entree_cmap(cmap@, i as int) == Some(
                (r, o as int),
            ),
            best is None ==> meilleure_entree_cmap(cmap@, i as int) is None,
        decreases count - i,
    {
        let rec = 4 + 8 * i;
        let p = u16b(cmap, rec);
        let e = u16b(cmap, rec + 2);
        let o = u32b(cmap, rec + 4);
        match (p, e, o) {
            (Some(p), Some(e), Some(off)) => {
                if (off as usize) <= cmap.len() {
                    let rang: Option<u8> = if p == 3 && e == 1 {
                        Some(0)
                    } else if p == 3 && e == 10 {
                        Some(1)
                    } else if p == 0 {
                        Some(2)
                    } else {
                        None
                    };
                    match rang {
                        Some(r) => {
                            let mieux = match best {
                                None => true,
                                Some((b, _)) => r < b,
                            };
                            if mieux {
                                best = Some((r, off as usize));
                            }
                        },
                        None => {},
                    }
                }
            },
            _ => {},
        }
        i = i + 1;
    }
    proof {
        lemme_meilleure_entree_cmap(cmap@, count as int);
    }
    match best {
        Some((_, off)) => Some(vstd::slice::slice_subrange(cmap, off, cmap.len())),
        None => None,
    }
}

/// `a + d` wrapped to 16 bits.
fn ajoute_delta(a: u16, d: i16) -> (r: u16)
    ensures
        r == ajoute16(a, d),
{
    let s: i32 = a as i32 + d as i32;
    if s < 0 {
        (s + 0x1_0000) as u16
    } else if s >= 0x1_0000 {
        (s - 0x1_0000) as u16
    } else {
        s as u16
    }
}

/// `cmap` format 4.
fn lookup_segmented(sub: &[u8], ch: u16) -> (r: Option<u16>)
    ensures
        r == glyphe_segmente(sub@, ch),
{
    let seg = match u16b(sub, 6) {
        Some(v) => (v / 2) as usize,
        None => return None,
    };
    let ends: usize = 14;
    let starts = ends + seg * 2 + 2;
    let deltas = starts + seg * 2;
    let ranges = deltas + seg * 2;
    let mut i: usize = 0;
    while i < seg
        invariant
            seg < 0x8000,
            ends == 14,
            i <= seg,
            starts == 14 + 2 * seg + 2,
            deltas == starts + 2 * seg,
            ranges == deltas + 2 * seg,
            glyphe_segmente(sub@, ch) == cherche_segment(sub@, ch, seg as int, i as int),
        decreases seg - i,
    {
        let fin = match u16b(sub, ends + i * 2) {
            Some(f) => f,
            None => return None,
        };
        if ch > fin {
            i = i + 1;
            continue;
        }
        let start = match u16b(sub, starts + i * 2) {
            Some(s) => s,
            None => return None,
        };
        if ch < start {
            return Some(0);
        }
        let delta = i16b(sub, deltas + i * 2);
        let range_offset = u16b(sub, ranges + i * 2);
        match (delta, range_offset) {
            (Some(delta), Some(range_offset)) => {
                if range_offset == 0 {
                    return Some(ajoute_delta(ch, delta));
                }
                let at = ranges + i * 2 + range_offset as usize + (ch - start) as usize * 2;
                match u16b(sub, at) {
                    Some(gid) => {
                        return Some(if gid == 0 { 0 } else { ajoute_delta(gid, delta) });
                    },
                    None => return None,
                }
            },
            _ => return None,
        }
    }
    Some(0)
}

/// `cmap` format 12.
fn lookup_groups(sub: &[u8], ch: u32) -> (r: Option<u16>)
    ensures
        r == glyphe_groupes(sub@, ch),
{
    let count = match u32b(sub, 12) {
        Some(c) => c as usize,
        None => return None,
    };
    let mut i: usize = 0;
    while i < count
        invariant
            i <= count,
            count <= u32::MAX,
            glyphe_groupes(sub@, ch) == cherche_groupe(sub@, ch, count as int, i as int),
        decreases count - i,
    {
        if sub.len() < 16 || (sub.len() - 16) / 12 < i {
            return None;
        }
        let g = 16 + 12 * i;
        let start = u32b(sub, g);
        let end = if g <= usize::MAX - 4 { u32b(sub, g + 4) } else { None };
        match (start, end) {
            (Some(start), Some(end)) => {
                if ch < start {
                    return Some(0);
                }
                if ch <= end {
                    let base = if g <= usize::MAX - 8 { u32b(sub, g + 8) } else { None };
                    match base {
                        Some(base) => {
                            let gid: u64 = (base as u64 + (ch - start) as u64) % 0x1_0000_0000;
                            if gid < 0x1_0000 {
                                return Some(gid as u16);
                            } else {
                                return None;
                            }
                        },
                        None => return None,
                    }
                }
            },
            _ => return None,
        }
        i = i + 1;
    }
    Some(0)
}

/// Glyph id for a character: formats 4, 12 and 6.
pub fn lookup(sub: &[u8], ch: u32) -> (r: Option<u16>)
    ensures
        r == glyphe_de(sub@, ch),
{
    let format = match u16b(sub, 0) {
        Some(f) => f,
        None => return None,
    };
    if format == 4 {
        if ch < 0x1_0000 {
            lookup_segmented(sub, ch as u16)
        } else {
            None
        }
    } else if format == 12 {
        lookup_groups(sub, ch)
    } else if format == 6 {
        match (u16b(sub, 6), u16b(sub, 8)) {
            (Some(first), Some(count)) => {
                if ch < first as u32 {
                    None
                } else if ch - (first as u32) >= count as u32 {
                    Some(0)
                } else {
                    u16b(sub, 10 + 2 * ((ch - first as u32) as usize))
                }
            },
            _ => None,
        }
    } else {
        None
    }
}

/// Advance of a glyph in an `hmtx` of `num_h` long records: glyphs past the
/// last record share its advance.
pub open spec fn avance_brute(hmtx: Seq<u8>, num_h: int, gid: u16) -> u16 {
    let i = if (gid as int) < num_h - 1 { gid as int } else { num_h - 1 };
    match lu16(hmtx, 4 * i) {
        Some(v) => v,
        None => 0,
    }
}

/// Advance width of a glyph, in font units.
pub fn advance(hmtx: &[u8], num_h: usize, gid: u16) -> (r: u16)
    requires
        num_h >= 1,
    ensures
        r == avance_brute(hmtx@, num_h as int, gid),
{
    let i = if (gid as usize) < num_h - 1 { gid as usize } else { num_h - 1 };
    if i > usize::MAX / 4 {
        return 0;
    }
    match u16b(hmtx, i * 4) {
        Some(v) => v,
        None => 0,
    }
}

} // verus!

verus! {

// --- Refusals, kinds, metrics -------------------------------------------

/// Why a face may not enter a file. A code, never a sentence: the wording
/// belongs to the screen.
#[derive(Debug, Clone, Copy, PartialEq, Eq, Structural)]
pub enum Refus {
    /// Not a font, truncated before its tables, nameless, or a collection
    /// index that does not exist.
    Illisible,
    /// `fsType` bit 0x0002: the vendor forbids embedding outright.
    EmbarquementInterdit,
    /// Nothing to embed but bitmaps: the licence says so (bit 0x0200), or
    /// the face carries no outline table at all.
    BitmapSeulement,
    /// A character map in no format we read, or none at all.
    CmapIllisible,
    /// Outlines in a shape no PDF can carry: `CFF2`.
    FormatNonEmbarquable,
    /// The album names a face whose copy beside `album.json` is gone,
    /// unreadable, or named something we never write.
    FichierAbsent,
}

/// The code of a refusal, as the engine speaks it.
pub open spec fn code_du_refus(r: Refus) -> Seq<char> {
    match r {
        Refus::Illisible => "illisible"@,
        Refus::EmbarquementInterdit => "embarquement_interdit"@,
        Refus::BitmapSeulement => "bitmap_seulement"@,
        Refus::CmapIllisible => "cmap_illisible"@,
        Refus::FormatNonEmbarquable => "format_non_embarquable"@,
        Refus::FichierAbsent => "fichier_absent"@,
    }
}

impl Refus {
    /// The code the engine speaks, as `curation.json` carries `illisible`.
    pub fn code(self) -> (r: &'static str)
        ensures
            r@ == code_du_refus(self),
    {
        match self {
            Refus::Illisible => "illisible",
            Refus::EmbarquementInterdit => "embarquement_interdit",
            Refus::BitmapSeulement => "bitmap_seulement",
            Refus::CmapIllisible => "cmap_illisible",
            Refus::FormatNonEmbarquable => "format_non_embarquable",
            Refus::FichierAbsent => "fichier_absent",
        }
    }
}

/// What a face's outlines are made of, read from the tables it declares.
#[derive(Debug, Clone, Copy, PartialEq, Eq, Structural)]
pub enum Genre {
    Glyf,
    Cff,
    /// The shape a variable face gives CFF outlines; PDF defines no embedding
    /// for it.
    Cff2,
}

/// The code of an outline kind, as the engine speaks it.
pub open spec fn code_du_genre(g: Genre) -> Seq<char> {
    match g {
        Genre::Glyf => "glyf"@,
        Genre::Cff => "cff"@,
        Genre::Cff2 => "cff2"@,
    }
}

impl Genre {
    /// The code the engine speaks.
    pub fn code(self) -> (r: &'static str)
        ensures
            r@ == code_du_genre(self),
    {
        match self {
            Genre::Glyf => "glyf",
            Genre::Cff => "cff",
            Genre::Cff2 => "cff2",
        }
    }
}

/// What the licence bits alone forbid. Preview & Print (0x0004) and
/// no-subsetting (0x0100) are accepted.
pub open spec fn refus_fs_type(fs_type: u16) -> Option<Refus> {
    if fs_type & 0x0002 != 0 {
        Some(Refus::EmbarquementInterdit)
    } else if fs_type & 0x0200 != 0 {
        Some(Refus::BitmapSeulement)
    } else {
        None
    }
}

pub fn verdict_fs_type(fs_type: u16) -> (r: Option<Refus>)
    ensures
        r == refus_fs_type(fs_type),
{
    if fs_type & 0x0002 != 0 {
        Some(Refus::EmbarquementInterdit)
    } else if fs_type & 0x0200 != 0 {
        Some(Refus::BitmapSeulement)
    } else {
        None
    }
}

/// What the PDF needs to know about a face, in the 1000-unit em PDF works
/// in.
#[derive(Debug, Clone, Copy, PartialEq, Eq)]
pub struct Metrics {
    /// `[xMin, yMin, xMax, yMax]`, for `/FontBBox`.
    pub bbox: [i32; 4],
    pub ascent: i32,
    pub descent: i32,
    pub cap_height: i32,
    /// The italic angle as `post` stores it: degrees, 16.16 fixed point.
    pub italic_angle: i32,
    /// Embedding permission from OS/2; 0 means unrestricted.
    pub fs_type: u16,
}

impl Metrics {
    /// True when the licence bits allow the face into a file at all.
    pub fn embeddable(&self) -> (r: bool)
        ensures
            r == (refus_fs_type(self.fs_type) is None),
    {
        verdict_fs_type(self.fs_type).is_none()
    }
}

/// A measure in font units, in the 1000-unit em: `v × 1000 / upem`, rounded
/// half away from zero. Done exactly here; the quotient is never within
/// floating-point error of a half, so this is the rounding a reader doing
/// it in `f64` gets too.
pub open spec fn en_em(v: int, upem: int) -> int {
    let n = v * 1000;
    if n >= 0 {
        (2 * n + upem) / (2 * upem)
    } else {
        -((-2 * n + upem) / (2 * upem))
    }
}

pub fn to_em(v: i32, upem: u16) -> (r: i32)
    requires
        -0x1_0000 <= v <= 0x1_0000,
        upem >= 1,
    ensures
        r == en_em(v as int, upem as int),
{
    let n: i64 = v as i64 * 1000;
    let u: i64 = upem as i64;
    if n >= 0 {
        let q = (2 * n + u) / (2 * u);
        assert(0 <= q <= 2 * n + u) by (nonlinear_arith)
            requires
                q == (2 * n + u) / (2 * u),
                n >= 0,
                u >= 1,
        ;
        q as i32
    } else {
        let q = (-2 * n + u) / (2 * u);
        assert(0 <= q <= -2 * n + u) by (nonlinear_arith)
            requires
                q == (-2 * n + u) / (2 * u),
                n < 0,
                u >= 1,
        ;
        (-q) as i32
    }
}

/// What the tables every face shares say about it, all but the widths.
#[derive(Debug, Clone, Copy, PartialEq, Eq)]
pub struct ValeursCommunes {
    pub num_h: u16,
    pub num_glyphs: u16,
    pub upem: u16,
    pub fs_type: u16,
    pub bbox: [i32; 4],
    pub ascent: i32,
    pub descent: i32,
    pub cap_height: i32,
    pub italic_angle: i32,
}

/// A non-zero signed 16-bit field of an optional table.
pub open spec fn champ_non_nul(t: Option<Seq<u8>>, at: int) -> Option<i16> {
    match t {
        Some(o) => match lu16(o, at) {
            Some(v) => if signe16(v) != 0 { Some(signe16(v)) } else { None },
            None => None,
        },
        None => None,
    }
}

/// An unsigned 16-bit field of an optional table.
pub open spec fn champ_u16(t: Option<Seq<u8>>, at: int) -> Option<u16> {
    match t {
        Some(o) => lu16(o, at),
        None => None,
    }
}

/// `OS/2` first, `hhea` as the fallback, as readers do.
pub open spec fn hauteur(os2: Option<Seq<u8>>, at_os2: int, hhea: Seq<u8>, at_hhea: int) -> Option<
    i16,
> {
    match champ_non_nul(os2, at_os2) {
        Some(v) => Some(v),
        None => match lu16(hhea, at_hhea) {
            Some(v) => Some(signe16(v)),
            None => None,
        },
    }
}

/// The shared tables of the face at `dir`, read: `None` when `head`,
/// `hhea`, `hmtx` or `maxp` is missing or truncated, when the em is zero or
/// when `hmtx` declares no long record. `OS/2` and `post` are optional.
pub open spec fn lecture_communes(d: Seq<u8>, dir: int) -> Option<ValeursCommunes> {
    let os2 = contenu_table(d, dir, TAG_OS2);
    match (
        contenu_table(d, dir, TAG_HEAD),
        contenu_table(d, dir, TAG_HHEA),
        contenu_table(d, dir, TAG_HMTX),
        contenu_table(d, dir, TAG_MAXP),
    ) {
        (Some(head), Some(hhea), Some(_hmtx), Some(maxp)) => {
            match (
                lu16(head, 18),
                lu16(hhea, 34),
                hauteur(os2, 68, hhea, 4),
                hauteur(os2, 70, hhea, 6),
                lu16(maxp, 4),
                lu16(head, 36),
                lu16(head, 38),
                lu16(head, 40),
                lu16(head, 42),
            ) {
                (
                    Some(upem),
                    Some(num_h),
                    Some(ascent),
                    Some(descent),
                    Some(num_glyphs),
                    Some(x0),
                    Some(y0),
                    Some(x1),
                    Some(y1),
                ) => if upem == 0 || num_h == 0 {
                    None
                } else {
                    let version = match champ_u16(os2, 0) {
                        Some(v) => v,
                        None => 0,
                    };
                    let cap = if version >= 2 {
                        match champ_non_nul(os2, 88) {
                            Some(c) => c,
                            None => ascent,
                        }
                    } else {
                        ascent
                    };
                    let u = upem as int;
                    Some(
                        ValeursCommunes {
                            num_h,
                            num_glyphs,
                            upem,
                            fs_type: match champ_u16(os2, 8) {
                                Some(f) => f,
                                None => 0,
                            },
                            bbox: [
                                en_em(signe16(x0) as int, u) as i32,
                                en_em(signe16(y0) as int, u) as i32,
                                en_em(signe16(x1) as int, u) as i32,
                                en_em(signe16(y1) as int, u) as i32,
                            ],
                            ascent: en_em(ascent as int, u) as i32,
                            descent: en_em(descent as int, u) as i32,
                            cap_height: en_em(cap as int, u) as i32,
                            italic_angle: match contenu_table(d, dir, TAG_POST) {
                                Some(p) => match lu32(p, 4) {
                                    Some(a) => signe32(a),
                                    None => 0,
                                },
                                None => 0,
                            },
                        },
                    )
                },
                _ => None,
            }
        },
        _ => None,
    }
}

/// The metrics a face with this character map carries: `None` when no
/// Unicode subtable exists or its format is one this reader does not walk.
pub open spec fn metriques(c: ValeursCommunes, cmap: Seq<u8>) -> Option<Metrics> {
    match sous_table_unicode(cmap) {
        Some(sub) => match glyphe_de(sub, 0x41) {
            Some(_) => Some(
                Metrics {
                    bbox: c.bbox,
                    ascent: c.ascent,
                    descent: c.descent,
                    cap_height: c.cap_height,
                    italic_angle: c.italic_angle,
                    fs_type: c.fs_type,
                },
            ),
            None => None,
        },
        None => None,
    }
}

/// The shared tables of a face, read, with `hmtx` kept for the widths.
pub struct Communes<'a> {
    pub hmtx: &'a [u8],
    pub v: ValeursCommunes,
}

fn os2_non_nul(os2: Option<&[u8]>, at: usize) -> (r: Option<i16>)
    ensures
        r == champ_non_nul(
            match os2 {
                Some(o) => Some(o@),
                None => None,
            },
            at as int,
        ),
{
    match os2 {
        Some(o) => match i16b(o, at) {
            Some(v) => if v != 0 { Some(v) } else { None },
            None => None,
        },
        None => None,
    }
}

fn lire_hauteur(os2: Option<&[u8]>, at_os2: usize, hhea: &[u8], at_hhea: usize) -> (r: Option<i16>)
    ensures
        r == hauteur(
            match os2 {
                Some(o) => Some(o@),
                None => None,
            },
            at_os2 as int,
            hhea@,
            at_hhea as int,
        ),
{
    match os2_non_nul(os2, at_os2) {
        Some(v) => Some(v),
        None => i16b(hhea, at_hhea),
    }
}

impl<'a> Communes<'a> {
    /// Read the shared tables of the face at `dir`.
    pub fn lire(data: &'a [u8], dir: usize) -> (r: Option<Communes<'a>>)
        ensures
            r matches Some(c) ==> lecture_communes(data@, dir as int) == Some(c.v)
                && contenu_table(data@, dir as int, TAG_HMTX) == Some(c.hmtx@),
            r is None ==> lecture_communes(data@, dir as int) is None,
    {
        let os2 = table(data, dir, TAG_OS2);
        let head = table(data, dir, TAG_HEAD);
        let hhea = table(data, dir, TAG_HHEA);
        let hmtx = table(data, dir, TAG_HMTX);
        let maxp = table(data, dir, TAG_MAXP);
        let (head, hhea, hmtx, maxp) = match (head, hhea, hmtx, maxp) {
            (Some(a), Some(b), Some(c), Some(e)) => (a, b, c, e),
            _ => return None,
        };
        let upem = u16b(head, 18);
        let num_h = u16b(hhea, 34);
        let ascent = lire_hauteur(os2, 68, hhea, 4);
        let descent = lire_hauteur(os2, 70, hhea, 6);
        let num_glyphs = u16b(maxp, 4);
        let x0 = i16b(head, 36);
        let y0 = i16b(head, 38);
        let x1 = i16b(head, 40);
        let y1 = i16b(head, 42);
        match (upem, num_h, ascent, descent, num_glyphs, x0, y0, x1, y1) {
            (
                Some(upem),
                Some(num_h),
                Some(ascent),
                Some(descent),
                Some(num_glyphs),
                Some(x0),
                Some(y0),
                Some(x1),
                Some(y1),
            ) => {
                if upem == 0 || num_h == 0 {
                    return None;
                }
                let version = match os2 {
                    Some(o) => match u16b(o, 0) {
                        Some(v) => v,
                        None => 0,
                    },
                    None => 0,
                };
                let cap = if version >= 2 {
                    match os2_non_nul(os2, 88) {
                        Some(c) => c,
                        None => ascent,
                    }
                } else {
                    ascent
                };
                let fs_type = match os2 {
                    Some(o) => match u16b(o, 8) {
                        Some(f) => f,
                        None => 0,
                    },
                    None => 0,
                };
                let italic_angle = match table(data, dir, TAG_POST) {
                    Some(p) => match i32b(p, 4) {
                        Some(a) => a,
                        None => 0,
                    },
                    None => 0,
                };
                let v = ValeursCommunes {
                    num_h,
                    num_glyphs,
                    upem,
                    fs_type,
                    bbox: [
                        to_em(x0 as i32, upem),
                        to_em(y0 as i32, upem),
                        to_em(x1 as i32, upem),
                        to_em(y1 as i32, upem),
                    ],
                    ascent: to_em(ascent as i32, upem),
                    descent: to_em(descent as i32, upem),
                    cap_height: to_em(cap as i32, upem),
                    italic_angle,
                };
                Some(Communes { hmtx, v })
            },
            _ => None,
        }
    }

    /// The whole of [`Metrics`], when the character map is usable.
    pub fn metrics(&self, cmap: &[u8]) -> (r: Option<Metrics>)
        ensures
            r == metriques(self.v, cmap@),
    {
        let sub = match unicode_subtable(cmap) {
            Some(s) => s,
            None => return None,
        };
        match lookup(sub, 0x41) {
            Some(_) => Some(
                Metrics {
                    bbox: self.v.bbox,
                    ascent: self.v.ascent,
                    descent: self.v.descent,
                    cap_height: self.v.cap_height,
                    italic_angle: self.v.italic_angle,
                    fs_type: self.v.fs_type,
                },
            ),
            None => None,
        }
    }

    /// Every glyph's advance, in the 1000-unit em, indexed by glyph id.
    pub fn avances(&self) -> (r: Vec<i32>)
        requires
            self.v.num_h >= 1,
            self.v.upem >= 1,
        ensures
            r@.len() == self.v.num_glyphs,
            forall|g: int|
                0 <= g < r@.len() ==> #[trigger] r@[g] == en_em(
                    avance_brute(self.hmtx@, self.v.num_h as int, g as u16) as int,
                    self.v.upem as int,
                ),
    {
        let mut r: Vec<i32> = Vec::new();
        let mut g: u16 = 0;
        while g < self.v.num_glyphs
            invariant
                self.v.num_h >= 1,
                self.v.upem >= 1,
                g <= self.v.num_glyphs,
                r@.len() == g,
                forall|k: int|
                    0 <= k < r@.len() ==> #[trigger] r@[k] == en_em(
                        avance_brute(self.hmtx@, self.v.num_h as int, k as u16) as int,
                        self.v.upem as int,
                    ),
            decreases self.v.num_glyphs - g,
        {
            let a = advance(self.hmtx, self.v.num_h as usize, g);
            r.push(to_em(a as i32, self.v.upem));
            g = g + 1;
        }
        r
    }
}

} // verus!

verus! {

// --- A face -------------------------------------------------------------

/// `s` without its spaces (`replace(' ', "")`).
pub open spec fn sans_espaces(s: Seq<char>) -> Seq<char>
    decreases s.len(),
{
    if s.len() == 0 {
        s
    } else if s.last() == ' ' {
        sans_espaces(s.drop_last())
    } else {
        sans_espaces(s.drop_last()).push(s.last())
    }
}

/// The outlines a face declares, read off the directory alone: `glyf`,
/// then `CFF `, then `CFF2`.
pub open spec fn genre_de(d: Seq<u8>, dir: int) -> Option<Genre> {
    if place_table(d, dir, TAG_GLYF) is Some {
        Some(Genre::Glyf)
    } else if place_table(d, dir, TAG_CFF) is Some {
        Some(Genre::Cff)
    } else if place_table(d, dir, TAG_CFF2) is Some {
        Some(Genre::Cff2)
    } else {
        None
    }
}

/// What a reading of a face says, as values.
pub struct VueFace {
    pub index: u32,
    pub postscript: Seq<char>,
    pub nom: Seq<char>,
    pub famille: Seq<char>,
    pub genre: Option<Genre>,
    pub variable: bool,
    pub sous_ensemblage_interdit: bool,
    pub metrics: Option<Metrics>,
    pub refus: Option<Refus>,
}

/// The readable name: family and style joined, the family alone, or the
/// PostScript name when nothing else reads.
pub open spec fn nom_lisible(ps: Option<Seq<char>>, famille: Option<Seq<char>>, style: Option<
    Seq<char>,
>) -> Seq<char> {
    match famille {
        Some(f) => match style {
            Some(s) => if s.len() > 0 {
                f + seq![' '] + s
            } else {
                f
            },
            None => f,
        },
        None => match ps {
            Some(p) => p,
            None => Seq::<char>::empty(),
        },
    }
}

/// The refusal a face carries: the licence first, then the absence or the
/// shape of its outlines, then its character map.
pub open spec fn refus_de(fs_type: u16, genre: Option<Genre>, metrics: Option<Metrics>) -> Option<
    Refus,
> {
    match refus_fs_type(fs_type) {
        Some(r) => Some(r),
        None => if genre is None {
            Some(Refus::BitmapSeulement)
        } else if genre == Some(Genre::Cff2) {
            Some(Refus::FormatNonEmbarquable)
        } else if metrics is None {
            Some(Refus::CmapIllisible)
        } else {
            None
        },
    }
}

/// Face `index` of a font file, read. `Err` means the bytes name no face at
/// all; every other refusal comes back inside a face that names itself.
#[verifier::opaque]
pub open spec fn lecture_face(d: Seq<u8>, index: u32) -> Result<VueFace, Refus> {
    match repertoire(d, index) {
        None => Err(Refus::Illisible),
        Some(dir) => match contenu_table(d, dir, TAG_NAME) {
            None => Err(Refus::Illisible),
            Some(name) => {
                let ps = chaine_du_nom(name, 6);
                let famille = chaine_du_nom(name, 1);
                if ps is None && famille is None {
                    Err(Refus::Illisible)
                } else {
                    let nom = nom_lisible(ps, famille, chaine_du_nom(name, 2));
                    let genre = genre_de(d, dir);
                    let communes = lecture_communes(d, dir);
                    if communes is None && genre is Some {
                        Err(Refus::Illisible)
                    } else {
                        let fs_type = match communes {
                            Some(c) => c.fs_type,
                            None => 0,
                        };
                        let metrics = match communes {
                            Some(c) => match contenu_table(d, dir, TAG_CMAP) {
                                Some(m) => metriques(c, m),
                                None => None,
                            },
                            None => None,
                        };
                        Ok(
                            VueFace {
                                index,
                                postscript: match ps {
                                    Some(p) => p,
                                    None => sans_espaces(nom),
                                },
                                nom,
                                famille: match famille {
                                    Some(f) => f,
                                    None => Seq::<char>::empty(),
                                },
                                genre,
                                variable: place_table(d, dir, TAG_FVAR) is Some,
                                sous_ensemblage_interdit: fs_type & 0x0100 != 0,
                                metrics,
                                refus: refus_de(fs_type, genre, metrics),
                            },
                        )
                    }
                }
            },
        },
    }
}

/// One named design inside a font file. With the path, `index` is its
/// address.
#[derive(Debug, Clone)]
pub struct Face {
    /// Rank in the file: zero for a lone face, the collection's index else.
    pub index: u32,
    /// PostScript name (name ID 6), what would go in `/BaseFont`.
    pub postscript: String,
    /// Family (ID 1) and style (ID 2), joined.
    pub nom: String,
    /// Family alone, empty when the file declares none.
    pub famille: String,
    /// What the outlines are made of; `None` when there are none.
    pub genre: Option<Genre>,
    /// Carries an `fvar` table.
    pub variable: bool,
    /// `fsType` bit 0x0100: embedding whole only.
    pub sous_ensemblage_interdit: bool,
    /// `None` only when the character map could not be read.
    pub metrics: Option<Metrics>,
    /// `None` when the face may be embedded, the refusal otherwise.
    pub refus: Option<Refus>,
}

impl View for Face {
    type V = VueFace;

    open spec fn view(&self) -> VueFace {
        VueFace {
            index: self.index,
            postscript: self.postscript@,
            nom: self.nom@,
            famille: self.famille@,
            genre: self.genre,
            variable: self.variable,
            sous_ensemblage_interdit: self.sous_ensemblage_interdit,
            metrics: self.metrics,
            refus: self.refus,
        }
    }
}

fn sans_espaces_de(v: &[char]) -> (r: Vec<char>)
    ensures
        r@ == sans_espaces(v@),
{
    let mut r: Vec<char> = Vec::new();
    let mut i: usize = 0;
    while i < v.len()
        invariant
            i <= v@.len(),
            r@ == sans_espaces(v@.subrange(0, i as int)),
        decreases v.len() - i,
    {
        assert(v@.subrange(0, i + 1).drop_last() =~= v@.subrange(0, i as int));
        if v[i] != ' ' {
            r.push(v[i]);
        }
        i = i + 1;
    }
    assert(v@.subrange(0, i as int) =~= v@);
    r
}

fn genre_du_repertoire(data: &[u8], dir: usize) -> (r: Option<Genre>)
    ensures
        r == genre_de(data@, dir as int),
{
    if table_range(data, dir, TAG_GLYF).is_some() {
        Some(Genre::Glyf)
    } else if table_range(data, dir, TAG_CFF).is_some() {
        Some(Genre::Cff)
    } else if table_range(data, dir, TAG_CFF2).is_some() {
        Some(Genre::Cff2)
    } else {
        None
    }
}

impl Face {
    /// Read face `index` out of a font file.
    pub fn parse(data: &[u8], index: u32) -> (r: Result<Face, Refus>)
        ensures
            r matches Ok(f) ==> lecture_face(data@, index) == Ok::<VueFace, Refus>(f@),
            r matches Err(e) ==> lecture_face(data@, index) == Err::<VueFace, Refus>(e),
    {
        proof {
            reveal(lecture_face);
        }
        let dir = match sfnt_dir(data, index) {
            Some(d) => d,
            None => return Err(Refus::Illisible),
        };
        let name = match table(data, dir, TAG_NAME) {
            Some(n) => n,
            None => return Err(Refus::Illisible),
        };
        let ps = name_string(name, 6);
        let famille = name_string(name, 1);
        if ps.is_none() && famille.is_none() {
            return Err(Refus::Illisible);
        }
        let style = name_string(name, 2);
        let nom: Vec<char> = match &famille {
            Some(f) => match &style {
                Some(s) => if s.len() > 0 {
                    let t = crate::chaines::concat(f.as_slice(), &[' ']);
                    let u = crate::chaines::concat(t.as_slice(), s.as_slice());
                    u
                } else {
                    f.clone()
                },
                None => f.clone(),
            },
            None => match &ps {
                Some(p) => p.clone(),
                None => Vec::new(),
            },
        };
        proof {
            if famille is Some && style is Some {
                let f = famille.unwrap();
                let s = style.unwrap();
                if s@.len() > 0 {
                    assert(f@ + seq![' '] + s@ =~= nom@);
                }
            }
        }
        let postscript: Vec<char> = match &ps {
            Some(p) => p.clone(),
            None => sans_espaces_de(nom.as_slice()),
        };
        let genre = genre_du_repertoire(data, dir);
        let communes = Communes::lire(data, dir);
        if communes.is_none() && genre.is_some() {
            return Err(Refus::Illisible);
        }
        let fs_type: u16 = match &communes {
            Some(c) => c.v.fs_type,
            None => 0,
        };
        let metrics: Option<Metrics> = match &communes {
            Some(c) => match table(data, dir, TAG_CMAP) {
                Some(m) => c.metrics(m),
                None => None,
            },
            None => None,
        };
        let refus = match verdict_fs_type(fs_type) {
            Some(r) => Some(r),
            None => if genre.is_none() {
                Some(Refus::BitmapSeulement)
            } else if genre == Some(Genre::Cff2) {
                Some(Refus::FormatNonEmbarquable)
            } else if metrics.is_none() {
                Some(Refus::CmapIllisible)
            } else {
                None
            },
        };
        let famille_v: Vec<char> = match famille {
            Some(f) => f,
            None => Vec::new(),
        };
        Ok(
            Face {
                index,
                postscript: crate::chaines::chaine(postscript.as_slice()),
                nom: crate::chaines::chaine(nom.as_slice()),
                famille: crate::chaines::chaine(famille_v.as_slice()),
                genre,
                variable: table_range(data, dir, TAG_FVAR).is_some(),
                sous_ensemblage_interdit: fs_type & 0x0100 != 0,
                metrics,
                refus,
            },
        )
    }

    /// True when this face may go in a file.
    pub fn embeddable(&self) -> (r: bool)
        ensures
            r == (self.refus is None),
    {
        self.refus.is_none()
    }

    /// A face we could not read, named by nothing but its rank.
    pub fn refusee(index: u32, code: Refus) -> (r: Face)
        ensures
            r@ == (VueFace {
                index,
                postscript: Seq::<char>::empty(),
                nom: Seq::<char>::empty(),
                famille: Seq::<char>::empty(),
                genre: None,
                variable: false,
                sous_ensemblage_interdit: false,
                metrics: None,
                refus: Some(code),
            }),
    {
        Face {
            index,
            postscript: String::new(),
            nom: String::new(),
            famille: String::new(),
            genre: None,
            variable: false,
            sous_ensemblage_interdit: false,
            metrics: None,
            refus: Some(code),
        }
    }
}

} // verus!

verus! {

// --- The writer ---------------------------------------------------------

/// The tags an extracted face may keep, in ascending order: the order the
/// table directory lists them in.
pub open spec fn tag_ordre(k: int) -> u32 {
    if k == 0 { TAG_CFF }
    else if k == 1 { TAG_OS2 }
    else if k == 2 { TAG_CMAP }
    else if k == 3 { TAG_CVT }
    else if k == 4 { TAG_FPGM }
    else if k == 5 { TAG_GLYF }
    else if k == 6 { TAG_HEAD }
    else if k == 7 { TAG_HHEA }
    else if k == 8 { TAG_HMTX }
    else if k == 9 { TAG_LOCA }
    else if k == 10 { TAG_MAXP }
    else if k == 11 { TAG_NAME }
    else if k == 12 { TAG_POST }
    else { TAG_PREP }
}

pub const NOMBRE_DE_TAGS: usize = 14;

/// Kept whatever the outlines: the shared tables a PDF reader needs.
pub open spec fn gardee_toujours(t: u32) -> bool {
    t == TAG_HEAD || t == TAG_HHEA || t == TAG_HMTX || t == TAG_MAXP || t == TAG_CMAP || t
        == TAG_NAME || t == TAG_OS2 || t == TAG_POST
}

/// The tables an extracted face keeps. A closed list: layout tables, bitmap
/// strikes, signatures and variation tables all fall.
pub open spec fn gardee(g: Genre, t: u32) -> bool {
    gardee_toujours(t) || (g == Genre::Glyf && (t == TAG_GLYF || t == TAG_LOCA || t == TAG_CVT
        || t == TAG_FPGM || t == TAG_PREP)) || (g == Genre::Cff && t == TAG_CFF)
}

/// Without one of these there is no face to emit.
pub open spec fn requise(g: Genre, t: u32) -> bool {
    t == TAG_HEAD || t == TAG_HHEA || t == TAG_HMTX || t == TAG_MAXP || t == TAG_CMAP || t
        == TAG_NAME || (g == Genre::Glyf && (t == TAG_GLYF || t == TAG_LOCA)) || (g == Genre::Cff
        && t == TAG_CFF)
}

/// The kept tables present among the first `k` tags, in tag order.
pub open spec fn tables_choisies(d: Seq<u8>, dir: int, g: Genre, k: int) -> Seq<(u32, Seq<u8>)>
    decreases k,
{
    if k <= 0 {
        Seq::empty()
    } else {
        let avant = tables_choisies(d, dir, g, k - 1);
        let t = tag_ordre(k - 1);
        match contenu_table(d, dir, t) {
            Some(b) => if gardee(g, t) {
                avant.push((t, b))
            } else {
                avant
            },
            None => avant,
        }
    }
}

/// A required table is missing, or runs off the end of the file.
pub open spec fn manque_requise(d: Seq<u8>, dir: int, g: Genre) -> bool {
    exists|k: int|
        0 <= k < NOMBRE_DE_TAGS && requise(g, #[trigger] tag_ordre(k)) && contenu_table(
            d,
            dir,
            tag_ordre(k),
        ) is None
}

pub open spec fn be16(v: int) -> Seq<u8> {
    seq![((v / 0x100) % 0x100) as u8, (v % 0x100) as u8]
}

pub open spec fn be32(v: int) -> Seq<u8> {
    seq![
        ((v / 0x100_0000) % 0x100) as u8,
        ((v / 0x1_0000) % 0x100) as u8,
        ((v / 0x100) % 0x100) as u8,
        (v % 0x100) as u8,
    ]
}

/// The sfnt checksum of the first `k` words.
pub open spec fn somme_mots(d: Seq<u8>, k: int) -> u32
    decreases k,
{
    if k <= 0 {
        0
    } else {
        let w = match lu32(d, 4 * (k - 1)) {
            Some(v) => v as int,
            None => 0,
        };
        ((somme_mots(d, k - 1) as int + w) % 0x1_0000_0000) as u32
    }
}

/// The sfnt checksum: big-endian 32-bit words, summed with wrap-around; a
/// tail shorter than a word is not counted.
pub open spec fn somme(d: Seq<u8>) -> u32 {
    somme_mots(d, (d.len() / 4) as int)
}

/// `n` rounded up to a multiple of four.
pub open spec fn aligne4(n: int) -> int {
    (n + 3) / 4 * 4
}

/// A table padded with zeros to a four-byte boundary.
pub open spec fn rembourre(b: Seq<u8>) -> Seq<u8> {
    b + Seq::new((aligne4(b.len() as int) - b.len()) as nat, |_i: int| 0u8)
}

/// A table as written: `head` carries `adj` in its `checkSumAdjustment`
/// field, every other table is verbatim.
pub open spec fn contenu_ecrit(t: (u32, Seq<u8>), adj: u32) -> Seq<u8> {
    if t.0 == TAG_HEAD && t.1.len() >= 12 {
        t.1.subrange(0, 8) + be32(adj as int) + t.1.subrange(12, t.1.len() as int)
    } else {
        t.1
    }
}

/// The first `k` tables as written, each padded.
pub open spec fn corps(ts: Seq<(u32, Seq<u8>)>, k: int, adj: u32) -> Seq<u8>
    decreases k,
{
    if k <= 0 {
        Seq::empty()
    } else {
        corps(ts, k - 1, adj) + rembourre(contenu_ecrit(ts[k - 1], adj))
    }
}

/// How many bytes the first `k` padded tables take.
pub open spec fn longueur_corps(ts: Seq<(u32, Seq<u8>)>, k: int) -> int
    decreases k,
{
    if k <= 0 {
        0
    } else {
        longueur_corps(ts, k - 1) + aligne4(ts[k - 1].1.len() as int)
    }
}

/// Where table `k` starts in the emitted file.
pub open spec fn decalage(ts: Seq<(u32, Seq<u8>)>, k: int) -> int {
    12 + 16 * ts.len() + longueur_corps(ts, k)
}

/// Directory record `k`: tag, checksum, offset, length. The checksum is the
/// padded table's, with `head`'s adjustment at zero.
pub open spec fn enregistrement(ts: Seq<(u32, Seq<u8>)>, k: int) -> Seq<u8> {
    be32(ts[k].0 as int) + be32(somme(rembourre(contenu_ecrit(ts[k], 0))) as int) + be32(
        decalage(ts, k),
    ) + be32(ts[k].1.len() as int)
}

/// The first `k` directory records.
pub open spec fn repertoire_ecrit(ts: Seq<(u32, Seq<u8>)>, k: int) -> Seq<u8>
    decreases k,
{
    if k <= 0 {
        Seq::empty()
    } else {
        repertoire_ecrit(ts, k - 1) + enregistrement(ts, k - 1)
    }
}

/// The largest `s` with `2^s <= n` (zero for zero).
pub open spec fn log2_plancher(n: nat) -> nat
    decreases n,
{
    if n < 2 {
        0
    } else {
        1 + log2_plancher(n / 2)
    }
}

pub open spec fn puissance2(s: nat) -> nat
    decreases s,
{
    if s == 0 {
        1
    } else {
        2 * puissance2((s - 1) as nat)
    }
}

/// The directory header: the face's own signature, the table count, and the
/// binary-search hints (`searchRange`, `entrySelector`, `rangeShift`).
pub open spec fn entete(version: Seq<u8>, n: nat) -> Seq<u8> {
    let s = log2_plancher(n);
    let plage = 16 * puissance2(s);
    version + be16(n as int) + be16(plage as int) + be16(s as int) + be16(16 * n - plage)
}

/// A single-face font file holding these tables, `head` carrying `adj`.
#[verifier::opaque]
pub open spec fn fichier(version: Seq<u8>, ts: Seq<(u32, Seq<u8>)>, adj: u32) -> Seq<u8> {
    entete(version, ts.len()) + repertoire_ecrit(ts, ts.len() as int) + corps(
        ts,
        ts.len() as int,
        adj,
    )
}

/// A table offset the directory cannot hold.
pub open spec fn trop_long(ts: Seq<(u32, Seq<u8>)>) -> bool {
    exists|k: int| 0 <= k < ts.len() && #[trigger] decalage(ts, k) > u32::MAX
}

/// The adjustment that makes the whole file sum to `0xB1B0AFBA`.
pub open spec fn ajustement(f: Seq<u8>) -> u32 {
    ((0xB1B0_AFBA - somme(f) as int) % 0x1_0000_0000) as u32
}

/// Face `index` pulled out of `d` as a font file of its own, or the refusal
/// it carries.
pub open spec fn extraction(d: Seq<u8>, index: u32) -> Result<Seq<u8>, Refus> {
    match lecture_face(d, index) {
        Err(e) => Err(e),
        Ok(f) => match f.refus {
            Some(r) => Err(r),
            None => match f.genre {
                Some(g) => if g == Genre::Cff2 {
                    Err(Refus::FormatNonEmbarquable)
                } else if manque_requise(d, repertoire(d, index).unwrap(), g) {
                    Err(Refus::Illisible)
                } else {
                    let dir = repertoire(d, index).unwrap();
                    let ts = tables_choisies(d, dir, g, NOMBRE_DE_TAGS as int);
                    if trop_long(ts) {
                        Err(Refus::Illisible)
                    } else {
                        let version = d.subrange(dir, dir + 4);
                        Ok(fichier(version, ts, ajustement(fichier(version, ts, 0))))
                    }
                },
                None => Err(Refus::FormatNonEmbarquable),
            },
        },
    }
}

} // verus!

verus! {

/// The tables as values.
pub open spec fn vue_tables(ts: Seq<(u32, &[u8])>) -> Seq<(u32, Seq<u8>)> {
    Seq::new(ts.len(), |k: int| (ts[k].0, ts[k].1@))
}

pub proof fn lemme_contenu_ecrit_longueur(t: (u32, Seq<u8>), adj: u32)
    ensures
        contenu_ecrit(t, adj).len() == t.1.len(),
{
}

pub proof fn lemme_corps_longueur(ts: Seq<(u32, Seq<u8>)>, k: int, adj: u32)
    requires
        0 <= k <= ts.len(),
    ensures
        corps(ts, k, adj).len() == longueur_corps(ts, k),
        longueur_corps(ts, k) >= 0,
    decreases k,
{
    if k > 0 {
        lemme_corps_longueur(ts, k - 1, adj);
        lemme_contenu_ecrit_longueur(ts[k - 1], adj);
    }
}

fn tag_numero(k: usize) -> (r: u32)
    ensures
        r == tag_ordre(k as int),
{
    if k == 0 { TAG_CFF }
    else if k == 1 { TAG_OS2 }
    else if k == 2 { TAG_CMAP }
    else if k == 3 { TAG_CVT }
    else if k == 4 { TAG_FPGM }
    else if k == 5 { TAG_GLYF }
    else if k == 6 { TAG_HEAD }
    else if k == 7 { TAG_HHEA }
    else if k == 8 { TAG_HMTX }
    else if k == 9 { TAG_LOCA }
    else if k == 10 { TAG_MAXP }
    else if k == 11 { TAG_NAME }
    else if k == 12 { TAG_POST }
    else { TAG_PREP }
}

fn est_gardee(g: Genre, t: u32) -> (r: bool)
    ensures
        r == gardee(g, t),
{
    t == TAG_HEAD || t == TAG_HHEA || t == TAG_HMTX || t == TAG_MAXP || t == TAG_CMAP || t
        == TAG_NAME || t == TAG_OS2 || t == TAG_POST || (g == Genre::Glyf && (t == TAG_GLYF || t
        == TAG_LOCA || t == TAG_CVT || t == TAG_FPGM || t == TAG_PREP)) || (g == Genre::Cff && t
        == TAG_CFF)
}

fn est_requise(g: Genre, t: u32) -> (r: bool)
    ensures
        r == requise(g, t),
{
    t == TAG_HEAD || t == TAG_HHEA || t == TAG_HMTX || t == TAG_MAXP || t == TAG_CMAP || t
        == TAG_NAME || (g == Genre::Glyf && (t == TAG_GLYF || t == TAG_LOCA)) || (g == Genre::Cff
        && t == TAG_CFF)
}

fn pousse_be16(out: &mut Vec<u8>, v: u16)
    ensures
        final(out)@ == old(out)@ + be16(v as int),
{
    out.push(((v / 0x100) % 0x100) as u8);
    out.push((v % 0x100) as u8);
    assert(final(out)@ =~= old(out)@ + be16(v as int));
}

fn pousse_be32(out: &mut Vec<u8>, v: u32)
    ensures
        final(out)@ == old(out)@ + be32(v as int),
{
    out.push(((v / 0x100_0000) % 0x100) as u8);
    out.push(((v / 0x1_0000) % 0x100) as u8);
    out.push(((v / 0x100) % 0x100) as u8);
    out.push((v % 0x100) as u8);
    assert(final(out)@ =~= old(out)@ + be32(v as int));
}

fn pousse(out: &mut Vec<u8>, b: &[u8])
    ensures
        final(out)@ == old(out)@ + b@,
{
    let mut i: usize = 0;
    while i < b.len()
        invariant
            i <= b@.len(),
            out@ == old(out)@ + b@.subrange(0, i as int),
        decreases b.len() - i,
    {
        out.push(b[i]);
        i = i + 1;
        assert(out@ =~= old(out)@ + b@.subrange(0, i as int));
    }
    assert(b@.subrange(0, i as int) =~= b@);
}

/// The sfnt checksum of a buffer.
pub fn somme_sfnt(data: &[u8]) -> (r: u32)
    ensures
        r == somme(data@),
{
    let n = data.len() / 4;
    assert(data@.len() == data.len());
    let mut s: u32 = 0;
    let mut k: usize = 0;
    while k < n
        invariant
            n == data@.len() / 4,
            4 * n <= data@.len(),
            4 * n <= usize::MAX,
            k <= n,
            s == somme_mots(data@, k as int),
        decreases n - k,
    {
        let w = match u32b(data, 4 * k) {
            Some(v) => v,
            None => 0,
        };
        s = ((s as u64 + w as u64) % 0x1_0000_0000) as u32;
        k = k + 1;
    }
    s
}

/// A table as written, padded.
fn rembourre_ecrit(t: u32, b: &[u8], adj: u32) -> (r: Vec<u8>)
    ensures
        r@ == rembourre(contenu_ecrit((t, b@), adj)),
{
    let mut out: Vec<u8> = Vec::new();
    if t == TAG_HEAD && b.len() >= 12 {
        pousse(&mut out, vstd::slice::slice_subrange(b, 0, 8));
        pousse_be32(&mut out, adj);
        pousse(&mut out, vstd::slice::slice_subrange(b, 12, b.len()));
    } else {
        pousse(&mut out, b);
    }
    let ghost c = contenu_ecrit((t, b@), adj);
    assert(out@ == c);
    let ghost base = out@;
    while out.len() % 4 != 0
        invariant
            base == c,
            out@.len() <= aligne4(c.len() as int),
            out@.len() >= c.len(),
            out@ == c + Seq::new((out@.len() - c.len()) as nat, |_i: int| 0u8),
        decreases aligne4(c.len() as int) - out@.len(),
    {
        out.push(0u8);
        assert(out@ =~= c + Seq::new((out@.len() - c.len()) as nat, |_i: int| 0u8));
    }
    out
}

pub proof fn lemme_log2(n: nat)
    ensures
        n < 2 ==> log2_plancher(n) == 0,
        n < 4 ==> log2_plancher(n) <= 1,
        n < 8 ==> log2_plancher(n) <= 2,
        n < 16 ==> log2_plancher(n) <= 3,
    decreases n,
{
    if n >= 2 {
        lemme_log2(n / 2);
    }
}

fn pousse_enregistrement(out: &mut Vec<u8>, t: u32, b: &[u8], off: u32)
    requires
        b@.len() <= u32::MAX,
    ensures
        final(out)@ == old(out)@ + (be32(t as int) + be32(
            somme(rembourre(contenu_ecrit((t, b@), 0))) as int,
        ) + be32(off as int) + be32(b@.len() as int)),
{
    let zero = rembourre_ecrit(t, b, 0);
    let cs = somme_sfnt(zero.as_slice());
    pousse_be32(out, t);
    pousse_be32(out, cs);
    pousse_be32(out, off);
    pousse_be32(out, b.len() as u32);
    assert(final(out)@ =~= old(out)@ + (be32(t as int) + be32(cs as int) + be32(off as int) + be32(
        b@.len() as int,
    )));
}

/// The font file holding these tables, `head` carrying `adj`; `None` when
/// a table would start past what a 32-bit offset can say.
fn assembler(version: &[u8], ts: &Vec<(u32, &[u8])>, adj: u32) -> (r: Option<Vec<u8>>)
    requires
        1 <= ts@.len() <= 14,
        forall|k: int| 0 <= k < ts@.len() ==> (#[trigger] ts@[k]).1@.len() <= u32::MAX,
    ensures
        r is None <==> trop_long(vue_tables(ts@)),
        r matches Some(f) ==> f@ == fichier(version@, vue_tables(ts@), adj),
{
    let ghost vts = vue_tables(ts@);
    let n = ts.len();
    // Offsets first: each table starts where the previous one, padded, ends.
    let mut offs: Vec<u32> = Vec::new();
    let mut off: u64 = 12 + 16 * n as u64;
    let mut k: usize = 0;
    while k < n
        invariant
            n == ts@.len(),
            n <= 14,
            vts == vue_tables(ts@),
            forall|j: int| 0 <= j < ts@.len() ==> (#[trigger] ts@[j]).1@.len() <= u32::MAX,
            k <= n,
            offs@.len() == k,
            off == decalage(vts, k as int),
            forall|j: int| 0 <= j < k ==> #[trigger] offs@[j] as int == decalage(vts, j),
        decreases n - k,
    {
        if off > u32::MAX as u64 {
            assert(decalage(vts, k as int) > u32::MAX);
            return None;
        }
        offs.push(off as u32);
        let len = ts[k].1.len() as u64;
        assert(vts[k as int].1.len() == len);
        off = off + (len + 3) / 4 * 4;
        k = k + 1;
    }
    let mut out: Vec<u8> = Vec::new();
    pousse(&mut out, version);
    // The binary-search hints.
    let mut s: u16 = 0;
    let mut m: u16 = n as u16;
    assert(log2_plancher(n as nat) == s + log2_plancher(m as nat));
    proof {
        lemme_log2(n as nat);
        assert(puissance2(0) == 1);
    }
    while m >= 2
        invariant
            1 <= m <= n,
            n <= 14,
            s <= 3,
            log2_plancher(n as nat) <= 3,
            log2_plancher(n as nat) == s + log2_plancher(m as nat),
            puissance2(s as nat) * m <= n,
            puissance2(s as nat) * (m + 1) > n,
        decreases m,
    {
        assert(puissance2((s + 1) as nat) == 2 * puissance2(s as nat));
        assert(puissance2(s as nat) * m <= n);
        assert(2 * puissance2(s as nat) * (m / 2) <= puissance2(s as nat) * m) by (nonlinear_arith)
            requires puissance2(s as nat) >= 0, m >= 0;
        assert(2 * puissance2(s as nat) * (m / 2 + 1) >= puissance2(s as nat) * (m + 1)) by (nonlinear_arith)
            requires puissance2(s as nat) >= 0, m >= 0;
        m = m / 2;
        s = s + 1;
    }
    let ghost sel = log2_plancher(n as nat);
    assert(s == sel);
    assert(puissance2(s as nat) <= 16) by {
        assert(puissance2(0) == 1);
        assert(puissance2(1) == 2);
        assert(puissance2(2) == 4);
        assert(puissance2(3) == 8);
        assert(puissance2(4) == 16);
    }
    let p: u16 = if s == 0 { 1 } else if s == 1 { 2 } else if s == 2 { 4 } else if s == 3 { 8 } else { 16 };
    assert(p == puissance2(s as nat)) by {
        assert(puissance2(0) == 1);
        assert(puissance2(1) == 2);
        assert(puissance2(2) == 4);
        assert(puissance2(3) == 8);
        assert(puissance2(4) == 16);
    }
    let plage: u16 = 16 * p;
    pousse_be16(&mut out, n as u16);
    pousse_be16(&mut out, plage);
    pousse_be16(&mut out, s);
    pousse_be16(&mut out, (n as u16) * 16 - plage);
    assert(out@ == entete(version@, n as nat));
    // The directory.
    let ghost tete = out@;
    let mut k: usize = 0;
    while k < n
        invariant
            n == ts@.len(),
            vts == vue_tables(ts@),
            forall|j: int| 0 <= j < ts@.len() ==> (#[trigger] ts@[j]).1@.len() <= u32::MAX,
            k <= n,
            offs@.len() == n,
            forall|j: int| 0 <= j < n ==> #[trigger] offs@[j] as int == decalage(vts, j),
            out@ == tete + repertoire_ecrit(vts, k as int),
        decreases n - k,
    {
        let (t, b) = ts[k];
        assert(vts[k as int] == (t, b@));
        let ghost avant = out@;
        pousse_enregistrement(&mut out, t, b, offs[k]);
        assert(enregistrement(vts, k as int) == be32(t as int) + be32(
            somme(rembourre(contenu_ecrit((t, b@), 0))) as int,
        ) + be32(offs@[k as int] as int) + be32(b@.len() as int));
        assert(repertoire_ecrit(vts, (k + 1) as int) == repertoire_ecrit(vts, k as int)
            + enregistrement(vts, k as int));
        assert(out@ =~= tete + repertoire_ecrit(vts, (k + 1) as int));
        k = k + 1;
    }
    // The tables, verbatim, padded.
    let ghost tete2 = out@;
    let mut k: usize = 0;
    while k < n
        invariant
            n == ts@.len(),
            vts == vue_tables(ts@),
            k <= n,
            out@ == tete2 + corps(vts, k as int, adj),
        decreases n - k,
    {
        let (t, b) = ts[k];
        assert(vts[k as int] == (t, b@));
        let piece = rembourre_ecrit(t, b, adj);
        pousse(&mut out, piece.as_slice());
        assert(out@ =~= tete2 + corps(vts, (k + 1) as int, adj));
        k = k + 1;
    }
    proof {
        reveal(fichier);
    }
    assert(!trop_long(vts)) by {
        assert forall|j: int| 0 <= j < vts.len() implies #[trigger] decalage(vts, j) <= u32::MAX by {
            assert(offs@[j] as int == decalage(vts, j));
        }
    }
    Some(out)
}

} // verus!

verus! {

pub proof fn lemme_contenu_table_borne(d: Seq<u8>, dir: int, tag: u32)
    ensures
        contenu_table(d, dir, tag) matches Some(b) ==> b.len() <= u32::MAX,
{
    match lu16(d, dir + 4) {
        Some(n) => lemme_cherche_table_borne(d, dir, tag, 0, n as int),
        None => {},
    }
}

pub proof fn lemme_lecture_face(d: Seq<u8>, index: u32)
    ensures
        lecture_face(d, index) matches Ok(f) ==> {
            &&& repertoire(d, index) is Some
            &&& f.refus is None ==> (f.genre == Some(Genre::Glyf) || f.genre == Some(Genre::Cff))
        },
{
    reveal(lecture_face);
}

/// The kept tables of the face at `dir`, in tag order; `None` when a table
/// the face cannot do without is missing or runs off the end of the file.
fn choisir_tables<'a>(data: &'a [u8], dir: usize, g: Genre) -> (r: Option<Vec<(u32, &'a [u8])>>)
    ensures
        r is None <==> manque_requise(data@, dir as int, g),
        r matches Some(ts) ==> {
            &&& vue_tables(ts@) == tables_choisies(data@, dir as int, g, NOMBRE_DE_TAGS as int)
            &&& 1 <= ts@.len() <= 14
            &&& forall|j: int| 0 <= j < ts@.len() ==> (#[trigger] ts@[j]).1@.len() <= u32::MAX
        },
{
    let mut tables: Vec<(u32, &[u8])> = Vec::new();
    let mut k: usize = 0;
    assert(vue_tables(tables@) =~= tables_choisies(data@, dir as int, g, 0));
    while k < NOMBRE_DE_TAGS
        invariant
            k <= NOMBRE_DE_TAGS,
            vue_tables(tables@) == tables_choisies(data@, dir as int, g, k as int),
            tables@.len() <= k,
            k > 6 ==> tables@.len() >= 1,
            forall|j: int| 0 <= j < tables@.len() ==> (#[trigger] tables@[j]).1@.len() <= u32::MAX,
            forall|j: int|
                0 <= j < k ==> !(requise(g, #[trigger] tag_ordre(j)) && contenu_table(
                    data@,
                    dir as int,
                    tag_ordre(j),
                ) is None),
        decreases NOMBRE_DE_TAGS - k,
    {
        let t = tag_numero(k);
        if est_gardee(g, t) {
            match table(data, dir, t) {
                Some(b) => {
                    proof {
                        lemme_contenu_table_borne(data@, dir as int, t);
                    }
                    let ghost avant = tables@;
                    tables.push((t, b));
                    assert(vue_tables(tables@) =~= vue_tables(avant).push((t, b@)));
                },
                None => {
                    if est_requise(g, t) {
                        assert(manque_requise(data@, dir as int, g));
                        return None;
                    }
                },
            }
        }
        k = k + 1;
    }
    Some(tables)
}

impl Face {
    /// Pull face `index` out of `data` as a font file of its own: one sfnt,
    /// one face, carrying only the tables a PDF asks of it, copied verbatim,
    /// with its directory, checksums and `checkSumAdjustment` written anew.
    ///
    /// `data` must be the whole file. `Err` is the refusal the face carries.
    #[verifier::spinoff_prover]
    #[verifier::rlimit(40)]
    pub fn extraire(data: &[u8], index: u32) -> (r: Result<Vec<u8>, Refus>)
        ensures
            r matches Ok(v) ==> extraction(data@, index) == Ok::<Seq<u8>, Refus>(v@),
            r matches Err(e) ==> extraction(data@, index) == Err::<Seq<u8>, Refus>(e),
    {
        let face = match Face::parse(data, index) {
            Ok(f) => f,
            Err(e) => return Err(e),
        };
        proof {
            lemme_lecture_face(data@, index);
        }
        match face.refus {
            Some(code) => return Err(code),
            None => {},
        }
        let dir = match sfnt_dir(data, index) {
            Some(d) => d,
            None => return Err(Refus::Illisible),
        };
        assert(data@.len() == data.len());
        assert(lu32(data@, dir as int) is Some);
        let version = vstd::slice::slice_subrange(data, dir, dir + 4);
        let g = match face.genre {
            Some(Genre::Glyf) => Genre::Glyf,
            Some(Genre::Cff) => Genre::Cff,
            _ => return Err(Refus::FormatNonEmbarquable),
        };
        let tables = match choisir_tables(data, dir, g) {
            Some(t) => t,
            None => return Err(Refus::Illisible),
        };
        let f0 = match assembler(version, &tables, 0) {
            Some(f) => f,
            None => return Err(Refus::Illisible),
        };
        let s = somme_sfnt(f0.as_slice());
        let adj: u32 = ((0xB1B0_AFBAu64 + 0x1_0000_0000u64 - s as u64) % 0x1_0000_0000) as u32;
        match assembler(version, &tables, adj) {
            Some(f) => Ok(f),
            None => Err(Refus::Illisible),
        }
    }
}

/// Which of the two names an extracted face is written under, read off its
/// outlines: CFF ones in an `.otf`, quadratic ones in a `.ttf`.
pub open spec fn nom_de_fichier_police(g: Genre) -> Seq<char> {
    if g == Genre::Cff {
        POLICE_OTF@
    } else {
        POLICE_TTF@
    }
}

/// The name a quadratic face copied beside `album.json` goes by.
pub const POLICE_TTF: &'static str = "police.ttf";
/// The name a CFF face copied beside `album.json` goes by.
pub const POLICE_OTF: &'static str = "police.otf";

/// Which of the two names an extracted face is written under.
pub fn fichier_pour(genre: Genre) -> (r: &'static str)
    ensures
        r@ == nom_de_fichier_police(genre),
{
    match genre {
        Genre::Cff => POLICE_OTF,
        _ => POLICE_TTF,
    }
}

/// Pull face `index` out of `data` and say what to call it. `Err` is the
/// face's refusal, [`Face::extraire`]'s exactly.
pub fn extraire_pour_album(data: &[u8], index: u32) -> (r: Result<(&'static str, Vec<u8>), Refus>)
    ensures
        r matches Ok((nom, v)) ==> (lecture_face(data@, index) matches Ok(f) && f.genre matches Some(
            g,
        ) && nom@ == nom_de_fichier_police(g) && extraction(data@, index) == Ok::<Seq<u8>, Refus>(
            v@,
        )),
        r matches Err(e) ==> (match lecture_face(data@, index) {
            Err(e2) => e == e2,
            Ok(f) => if f.genre is None {
                e == Refus::BitmapSeulement
            } else {
                extraction(data@, index) == Err::<Seq<u8>, Refus>(e)
            },
        }),
{
    let genre = match Face::parse(data, index) {
        Err(e) => return Err(e),
        Ok(f) => match f.genre {
            Some(g) => g,
            None => return Err(Refus::BitmapSeulement),
        },
    };
    match Face::extraire(data, index) {
        Ok(v) => Ok((fichier_pour(genre), v)),
        Err(e) => Err(e),
    }
}

} // verus!

verus! {

// --- The face we write with ---------------------------------------------

/// What a face opened for writing holds, as values.
pub struct VueEmbarquee {
    pub data: Seq<u8>,
    pub sous_table: Seq<u8>,
    pub avances: Seq<i32>,
    pub interro: Option<u16>,
    pub metrics: Metrics,
    pub postscript: Seq<char>,
}

/// The glyph a character maps to: glyph zero (`.notdef`) and glyphs past
/// the face's count are none.
pub open spec fn glyphe_vue(v: VueEmbarquee, c: char) -> Option<u16> {
    match glyphe_de(v.sous_table, c as u32) {
        Some(g) => if g != 0 && (g as int) < v.avances.len() {
            Some(g)
        } else {
            None
        },
        None => None,
    }
}

/// The glyphs a string sets to, each with the character it draws: a
/// character the face has no glyph for becomes `?`, or nothing when the face
/// cannot draw `?` either.
pub open spec fn glyphes_vue(v: VueEmbarquee, s: Seq<char>) -> Seq<(u16, char)>
    decreases s.len(),
{
    if s.len() == 0 {
        Seq::empty()
    } else {
        let avant = glyphes_vue(v, s.drop_last());
        match glyphe_vue(v, s.last()) {
            Some(g) => avant.push((g, s.last())),
            None => match v.interro {
                Some(q) => avant.push((q, '?')),
                None => avant,
            },
        }
    }
}

/// A glyph's advance, in the 1000-unit em; zero past the face's count.
pub open spec fn avance_vue(v: VueEmbarquee, gid: u16) -> i32 {
    if (gid as int) < v.avances.len() {
        v.avances[gid as int]
    } else {
        0
    }
}

/// Every glyph's advance in the 1000-unit em, from the shared tables.
pub open spec fn avances_de(hmtx: Seq<u8>, c: ValeursCommunes) -> Seq<i32> {
    Seq::new(
        c.num_glyphs as nat,
        |g: int| en_em(avance_brute(hmtx, c.num_h as int, g as u16) as int, c.upem as int) as i32,
    )
}

/// Face `index` of `d`, opened for writing, or the refusal it carries.
pub open spec fn ouverture(d: Seq<u8>, index: u32) -> Result<VueEmbarquee, Refus> {
    match lecture_face(d, index) {
        Err(e) => Err(e),
        Ok(f) => match f.refus {
            Some(r) => Err(r),
            None => match f.metrics {
                None => Err(Refus::CmapIllisible),
                Some(m) => {
                    let dir = repertoire(d, index).unwrap();
                    match (lecture_communes(d, dir), contenu_table(d, dir, TAG_HMTX)) {
                        (Some(c), Some(hmtx)) => match contenu_table(d, dir, TAG_CMAP) {
                            None => Err(Refus::CmapIllisible),
                            Some(cmap) => match sous_table_unicode(cmap) {
                                None => Err(Refus::CmapIllisible),
                                Some(st) => {
                                    let base = VueEmbarquee {
                                        data: d,
                                        sous_table: st,
                                        avances: avances_de(hmtx, c),
                                        interro: None,
                                        metrics: m,
                                        postscript: f.postscript,
                                    };
                                    Ok(VueEmbarquee { interro: glyphe_vue(base, '?'), ..base })
                                },
                            },
                        },
                        _ => Err(Refus::Illisible),
                    }
                },
            },
        },
    }
}

/// A face opened for writing: it keeps its bytes, its Unicode subtable and
/// every glyph's advance, and it is the only place a string turns into
/// glyphs, so what is measured and what is drawn cannot drift apart.
#[derive(Debug, Clone)]
pub struct Embarquee {
    data: Vec<u8>,
    sous_table: Vec<u8>,
    avances: Vec<i32>,
    interro: Option<u16>,
    metrics: Metrics,
    postscript: String,
}

impl View for Embarquee {
    type V = VueEmbarquee;

    closed spec fn view(&self) -> VueEmbarquee {
        VueEmbarquee {
            data: self.data@,
            sous_table: self.sous_table@,
            avances: self.avances@,
            interro: self.interro,
            metrics: self.metrics,
            postscript: self.postscript@,
        }
    }
}

impl Embarquee {
    /// Open a face for writing. `data` must be the whole file; `Err` is the
    /// face's refusal.
    pub fn depuis(data: Vec<u8>, index: u32) -> (r: Result<Embarquee, Refus>)
        ensures
            r matches Ok(e) ==> ouverture(data@, index) == Ok::<VueEmbarquee, Refus>(e@),
            r matches Err(x) ==> ouverture(data@, index) == Err::<VueEmbarquee, Refus>(x),
    {
        let face = match Face::parse(data.as_slice(), index) {
            Ok(f) => f,
            Err(e) => return Err(e),
        };
        proof {
            lemme_lecture_face(data@, index);
        }
        match face.refus {
            Some(code) => return Err(code),
            None => {},
        }
        let metrics = match face.metrics {
            Some(m) => m,
            None => return Err(Refus::CmapIllisible),
        };
        let dir = match sfnt_dir(data.as_slice(), index) {
            Some(d) => d,
            None => return Err(Refus::Illisible),
        };
        let (sous_table, avances) = {
            let communes = match Communes::lire(data.as_slice(), dir) {
                Some(c) => c,
                None => return Err(Refus::Illisible),
            };
            let cmap = match table(data.as_slice(), dir, TAG_CMAP) {
                Some(c) => c,
                None => return Err(Refus::CmapIllisible),
            };
            let st = match unicode_subtable(cmap) {
                Some(s) => vstd::slice::slice_to_vec(s),
                None => return Err(Refus::CmapIllisible),
            };
            let av = communes.avances();
            assert(av@ =~= avances_de(communes.hmtx@, communes.v));
            (st, av)
        };
        let mut face = Embarquee {
            data,
            sous_table,
            avances,
            interro: None,
            metrics,
            postscript: face.postscript,
        };
        face.interro = face.glyphe('?');
        Ok(face)
    }

    /// The glyph a character maps to, or `None` when the face has none.
    fn glyphe(&self, c: char) -> (r: Option<u16>)
        ensures
            r == glyphe_vue(self@, c),
    {
        match lookup(self.sous_table.as_slice(), c as u32) {
            Some(gid) => if gid != 0 && (gid as usize) < self.avances.len() {
                Some(gid)
            } else {
                None
            },
            None => None,
        }
    }

    /// The glyphs a string sets to, each with the character it draws.
    pub fn glyphes(&self, s: &str) -> (r: Vec<(u16, char)>)
        ensures
            r@ == glyphes_vue(self@, s@),
    {
        let cs = crate::chaines::caracteres(s);
        let mut out: Vec<(u16, char)> = Vec::new();
        let mut i: usize = 0;
        while i < cs.len()
            invariant
                i <= cs@.len(),
                cs@ == s@,
                out@ == glyphes_vue(self@, cs@.subrange(0, i as int)),
            decreases cs.len() - i,
        {
            let c = cs[i];
            assert(cs@.subrange(0, i + 1).drop_last() =~= cs@.subrange(0, i as int));
            match self.glyphe(c) {
                Some(gid) => out.push((gid, c)),
                None => match self.interro {
                    Some(q) => out.push((q, '?')),
                    None => {},
                },
            }
            i = i + 1;
        }
        assert(cs@.subrange(0, i as int) =~= cs@);
        out
    }

    /// A glyph's advance, in the 1000-unit em: the number `/W` carries.
    pub fn avance(&self, gid: u16) -> (r: i32)
        ensures
            r == avance_vue(self@, gid),
    {
        if (gid as usize) < self.avances.len() {
            self.avances[gid as usize]
        } else {
            0
        }
    }

    pub fn metrics(&self) -> (r: &Metrics)
        ensures
            *r == self@.metrics,
    {
        &self.metrics
    }

    /// The bytes, for `FontFile2`.
    pub fn octets(&self) -> (r: &[u8])
        ensures
            r@ == self@.data,
    {
        self.data.as_slice()
    }

    /// The name that goes in `/BaseFont`, read from the face.
    pub fn postscript(&self) -> (r: &str)
        ensures
            r@ == self@.postscript,
    {
        self.postscript.as_str()
    }
}

} // verus!

verus! {

// --- The glyphs a document draws ------------------------------------------

/// The glyphs a document actually draws, and what each one means, ordered
/// by glyph so that two exports of one album are identical to the byte.
#[derive(Debug, Clone)]
pub struct Utilises(std::collections::BTreeMap<u16, char>);

impl View for Utilises {
    type V = Map<u16, char>;

    closed spec fn view(&self) -> Map<u16, char> {
        self.0@
    }
}

/// The glyphs drawn once glyph `gid` is recorded as drawing `c`: the
/// smallest code point wins.
pub open spec fn note(m: Map<u16, char>, gid: u16, c: char) -> Map<u16, char> {
    if m.contains_key(gid) && crate::chaines::point_de_code(m[gid]) <= crate::chaines::point_de_code(c) {
        m
    } else {
        m.insert(gid, c)
    }
}

/// What a document records does not depend on the order it draws in: two
/// glyphs noted one way round or the other leave the same record.
pub proof fn loi_l_ordre_des_glyphes_est_indifferent(m: Map<u16, char>, g1: u16, c1: char, g2: u16, c2: char)
    ensures
        note(note(m, g1, c1), g2, c2) == note(note(m, g2, c2), g1, c1),
{
    let a = note(note(m, g1, c1), g2, c2);
    let b = note(note(m, g2, c2), g1, c1);
    if g1 == g2 && c1 != c2 {
        vstd::utf8::char_u32_cast(c1, c1 as u32);
        vstd::utf8::char_u32_cast(c2, c2 as u32);
    }
    assert(a =~= b);
}

impl Utilises {
    /// Nothing drawn yet.
    pub fn new() -> (r: Utilises)
        ensures
            r@ == Map::<u16, char>::empty(),
            r@.dom().finite(),
    {
        Utilises(std::collections::BTreeMap::new())
    }

    /// Record a glyph as drawn. When two characters share a glyph, the
    /// smallest code point wins.
    pub fn noter(&mut self, gid: u16, c: char)
        ensures
            final(self)@ == note(old(self)@, gid, c),
            final(self)@.dom().finite(),
            final(self)@.dom().len() > 0,
    {
        broadcast use vstd::laws_cmp::group_laws_cmp, vstd::std_specs::btree::group_btree_axioms;
        let garde: Option<char> = match self.0.get(&gid) {
            Some(g) => Some(*g),
            None => None,
        };
        match garde {
            Some(g) => {
                if crate::chaines::precede(c, g) {
                    self.0.insert(gid, c);
                }
            },
            None => {
                self.0.insert(gid, c);
            },
        }
        proof {
            assert(self@.dom().contains(gid));
            vstd::set_lib::lemma_set_empty_equivalency_len(self@.dom());
        }
    }

    pub fn is_empty(&self) -> (r: bool)
        ensures
            r == (self@.dom().len() == 0),
    {
        broadcast use vstd::std_specs::btree::group_btree_axioms;
        let r = self.0.is_empty();
        proof {
            if r {
                assert(self@.dom() =~= Set::<u16>::empty());
            } else {
                let k = self@.dom().choose();
                assert(self@.dom().contains(k));
            }
        }
        r
    }

    /// Glyph and meaning, in glyph order.
    pub fn iter(&self) -> (r: Vec<(u16, char)>)
        ensures
            r@.len() == self@.dom().len(),
            forall|i: int|
                0 <= i < r@.len() ==> self@.contains_key(#[trigger] r@[i].0) && self@[r@[i].0]
                    == r@[i].1,
            forall|i: int, j: int| 0 <= i < j < r@.len() ==> #[trigger] r@[i].0 < #[trigger] r@[j].0,
    {
        broadcast use vstd::laws_cmp::group_laws_cmp, vstd::std_specs::btree::group_btree_axioms;
        let mut out: Vec<(u16, char)> = Vec::new();
        let iter0 = self.0.iter();
        let ghost cles = iter0.remaining().map_values(|kv: (&u16, &char)| *kv.0);
        proof {
            assert(vstd::std_specs::btree::key_obeys_cmp_spec::<u16>());
            assert(vstd::std_specs::btree::increasing_seq(cles));
            assert forall|i: int, j: int| 0 <= i < j < cles.len() implies cles[i] < cles[j] by {
                assert(cles[i].cmp_spec(&cles[j]) is Less);
            }
        }
        for kv in it: iter0
            invariant
                cles == it.seq().map_values(|kv: (&u16, &char)| *kv.0),
                forall|i: int, j: int| 0 <= i < j < cles.len() ==> cles[i] < cles[j],
                out@.len() == it.index(),
                forall|j: int| 0 <= j < it.index() ==> #[trigger] out@[j] == (*it.seq()[j].0, *it.seq()[j].1),
        {
            out.push((*kv.0, *kv.1));
        }
        proof {
            assert forall|i: int, j: int| 0 <= i < j < out@.len() implies #[trigger] out@[i].0
                < #[trigger] out@[j].0 by {
                assert(out@[i].0 == cles[i]);
                assert(out@[j].0 == cles[j]);
            }
        }
        out
    }
}

// --- The faces a folder holds ---------------------------------------------------

/// The extensions a font file goes by. A file named otherwise is not opened:
/// listing the faces is an enumeration, not a sniffing pass.
pub const EXTENSIONS: [&'static str; 4] = ["ttf", "otf", "ttc", "otc"];

/// A file worth opening when the faces of a folder are listed: not hidden,
/// and named with one of the font extensions, in any case.
pub open spec fn est_fichier_de_police(nom: Seq<char>) -> bool {
    !(nom.len() > 0 && nom[0] == '.') && match crate::chemins::extension_du_nom(nom) {
        Some(e) => {
            let e = crate::heic::en_minuscules(e);
            e == "ttf"@ || e == "otf"@ || e == "ttc"@ || e == "otc"@
        },
        None => false,
    }
}

/// Whether the file named `nom` is one to open when listing faces.
pub fn fichier_de_police(nom: &str) -> (b: bool)
    ensures
        b == est_fichier_de_police(nom@),
{
    let v = crate::chaines::caracteres(nom);
    if v.len() > 0 && v[0] == '.' {
        return false;
    }
    match crate::chemins::extension_de_nom(v.as_slice()) {
        Some(e) => {
            let e = crate::heic::minuscules(e.as_slice());
            let mut k: usize = 0;
            let mut trouve = false;
            while k < 4
                invariant
                    k <= 4,
                    trouve == exists|j: int| 0 <= j < k && e@ == EXTENSIONS@[j]@,
                    EXTENSIONS@ == seq!["ttf", "otf", "ttc", "otc"],
                decreases 4 - k,
            {
                proof {
                    assert(EXTENSIONS@ =~= seq!["ttf", "otf", "ttc", "otc"]);
                }
                if crate::chaines::egales(crate::chaines::caracteres(EXTENSIONS[k]).as_slice(), e.as_slice()) {
                    trouve = true;
                }
                k = k + 1;
            }
            proof {
                assert(EXTENSIONS@[0]@ == "ttf"@);
                assert(EXTENSIONS@[1]@ == "otf"@);
                assert(EXTENSIONS@[2]@ == "ttc"@);
                assert(EXTENSIONS@[3]@ == "otc"@);
            }
            trouve
        },
        None => false,
    }
}

/// What the listing shows of a face that would not read: its rank and why.
pub open spec fn vue_refusee(index: u32, code: Refus) -> VueFace {
    VueFace {
        index,
        postscript: Seq::<char>::empty(),
        nom: Seq::<char>::empty(),
        famille: Seq::<char>::empty(),
        genre: None,
        variable: false,
        sous_ensemblage_interdit: false,
        metrics: None,
        refus: Some(code),
    }
}

/// Every face a font file carries, refused ones included and named by
/// their rank: a screen listing faces has to be able to say why one is
/// missing. A file that names no face at all is one refused face.
pub fn faces_du_fichier(data: &[u8]) -> (r: Vec<Face>)
    ensures
        r@.len() == if nombre_de_faces(data@) == 0 { 1 } else { nombre_de_faces(data@) as int },
        forall|i: int| 0 <= i < r@.len() ==> (#[trigger] r@[i])@ == match lecture_face(data@, i as u32) {
            Ok(v) => v,
            Err(c) => vue_refusee(i as u32, c),
        },
{
    let n = face_count(data);
    let total: u32 = if n == 0 { 1 } else { n };
    let mut r: Vec<Face> = Vec::new();
    let mut index: u32 = 0;
    while index < total
        invariant
            total == if nombre_de_faces(data@) == 0 { 1 } else { nombre_de_faces(data@) },
            index <= total,
            r@.len() == index,
            forall|i: int| 0 <= i < r@.len() ==> (#[trigger] r@[i])@ == match lecture_face(data@, i as u32) {
                Ok(v) => v,
                Err(c) => vue_refusee(i as u32, c),
            },
        decreases total - index,
    {
        let f = match Face::parse(data, index) {
            Ok(f) => f,
            Err(c) => Face::refusee(index, c),
        };
        r.push(f);
        index = index + 1;
    }
    r
}


/// A glyph's advance is its own long horizontal record's first two bytes,
/// big-endian; a glyph past the last long record takes that record's
/// advance; and an advance whose bytes the table does not hold is 0.
pub proof fn loi_l_avance_vient_du_dernier_enregistrement(hmtx: Seq<u8>, num_h: int, gid: u16)
    requires
        num_h >= 1,
    ensures
        (gid as int) < num_h && 4 * (gid as int) + 2 <= hmtx.len() ==> avance_brute(hmtx, num_h, gid) as int
            == hmtx[4 * (gid as int)] as int * 256 + hmtx[4 * (gid as int) + 1] as int,
        (gid as int) >= num_h - 1 && 4 * (num_h - 1) + 2 <= hmtx.len() ==> avance_brute(hmtx, num_h, gid) as int
            == hmtx[4 * (num_h - 1)] as int * 256 + hmtx[4 * (num_h - 1) + 1] as int,
        (gid as int) >= num_h - 1 && 4 * (num_h - 1) + 2 > hmtx.len() ==> avance_brute(hmtx, num_h, gid) == 0,
        (gid as int) < num_h && 4 * (gid as int) + 2 > hmtx.len() ==> avance_brute(hmtx, num_h, gid) == 0,
{
    let i = if (gid as int) < num_h - 1 { gid as int } else { num_h - 1 };
    if 0 <= 4 * i && 4 * i + 2 <= hmtx.len() {
        let v = hmtx[4 * i] as int * 256 + hmtx[4 * i + 1] as int;
        assert(0 <= v < 65536) by (nonlinear_arith)
            requires v == hmtx[4 * i] as int * 256 + hmtx[4 * i + 1] as int, hmtx[4 * i] < 256, hmtx[4 * i + 1] < 256;
    }
}

} // verus!
