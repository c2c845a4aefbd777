//! Which files only the platform's own codec can read, HEIC/HEIF and camera
//! RAW, told apart by their extension; the EXIF orientation swap every
//! caller shares; and the two spellings of an EXIF date.

use vstd::prelude::*;
use crate::chemins::{extension_du_chemin, extension_de_chemin};
use crate::chaines::{rogne, rogner, caracteres, egales, car_de};
use chrono::Datelike;
use chrono::Timelike;

verus! {

/// ASCII lower case. Every extension this module compares against is
/// ASCII without a `k`, so comparing lower-cased this way says exactly what
/// comparing after `str::to_lowercase` says.
pub open spec fn minuscule(c: char) -> char {
    if 'A' <= c <= 'Z' {
        ((c as u32) + 32) as char
    } else {
        c
    }
}

pub open spec fn en_minuscules(s: Seq<char>) -> Seq<char> {
    Seq::new(s.len(), |i: int| minuscule(s[i]))
}

/// A path's extension, lower-cased.
pub open spec fn extension_minuscule(path: Seq<char>) -> Option<Seq<char>> {
    match extension_du_chemin(path) {
        Some(e) => Some(en_minuscules(e)),
        None => None,
    }
}

pub open spec fn est_extension_heic(e: Seq<char>) -> bool {
    e == "heic"@ || e == "heif"@
}

/// The RAW containers the scan admits, a closed list.
pub open spec fn est_extension_raw(e: Seq<char>) -> bool {
    ||| e == "cr2"@
    ||| e == "cr3"@
    ||| e == "crw"@
    ||| e == "nef"@
    ||| e == "nrw"@
    ||| e == "arw"@
    ||| e == "dng"@
    ||| e == "raf"@
    ||| e == "orf"@
    ||| e == "rw2"@
    ||| e == "pef"@
    ||| e == "3fr"@
    ||| e == "fff"@
}

pub open spec fn chemin_heic(path: Seq<char>) -> bool {
    match extension_minuscule(path) {
        Some(e) => est_extension_heic(e),
        None => false,
    }
}

pub open spec fn chemin_raw(path: Seq<char>) -> bool {
    match extension_minuscule(path) {
        Some(e) => est_extension_raw(e),
        None => false,
    }
}

/// The RAW containers the scan admits. The codec's own list changes with
/// every OS release and is invisible where there is no codec, so this one
/// is closed.
pub const RAW: [&'static str; 13] = [
    "cr2", "cr3", "crw", "nef", "nrw", "arw", "dng", "raf", "orf", "rw2", "pef", "3fr", "fff",
];

pub fn minuscules(v: &[char]) -> (r: Vec<char>)
    ensures
        r@ == en_minuscules(v@),
{
    let mut r: Vec<char> = Vec::new();
    let mut i: usize = 0;
    while i < v.len()
        invariant
            i <= v@.len(),
            r@ == en_minuscules(v@).subrange(0, i as int),
        decreases v.len() - i,
    {
        let c = v[i];
        let d = if 'A' <= c && c <= 'Z' {
            match car_de((c as u32) + 32) {
                Some(d) => d,
                None => c,
            }
        } else {
            c
        };
        r.push(d);
        i = i + 1;
        assert(r@ =~= en_minuscules(v@).subrange(0, i as int));
    }
    assert(en_minuscules(v@).subrange(0, i as int) =~= en_minuscules(v@));
    r
}

/// A path's extension, lower-cased.
pub fn extension(path: &str) -> (r: Option<Vec<char>>)
    ensures
        r matches Some(e) ==> extension_minuscule(path@) == Some(e@),
        r is None ==> extension_minuscule(path@) is None,
{
    let v = caracteres(path);
    match extension_de_chemin(v.as_slice()) {
        Some(e) => Some(minuscules(e.as_slice())),
        None => None,
    }
}

fn est(e: &[char], lit: &str) -> (r: bool)
    ensures
        r == (e@ == lit@),
{
    let l = caracteres(lit);
    egales(e, l.as_slice())
}

pub fn is_heic(path: &str) -> (r: bool)
    ensures
        r == chemin_heic(path@),
{
    match extension(path) {
        Some(e) => est(e.as_slice(), "heic") || est(e.as_slice(), "heif"),
        None => false,
    }
}

pub fn is_raw(path: &str) -> (r: bool)
    ensures
        r == chemin_raw(path@),
{
    match extension(path) {
        Some(e) => {
            let e = e.as_slice();
            est(e, "cr2") || est(e, "cr3") || est(e, "crw") || est(e, "nef") || est(e, "nrw")
                || est(e, "arw") || est(e, "dng") || est(e, "raf") || est(e, "orf") || est(
                e,
                "rw2",
            ) || est(e, "pef") || est(e, "3fr") || est(e, "fff")
        },
        None => false,
    }
}

/// Whether the file can only be read by the system decoder.
pub fn systeme_requis(path: &str) -> (r: bool)
    ensures
        r == (chemin_heic(path@) || chemin_raw(path@)),
{
    is_heic(path) || is_raw(path)
}

/// The same size, with the EXIF orientation applied: tags 5 to 8 turn the
/// picture on its side, so width and height swap.
pub fn oriente(dims: (u32, u32), orientation: u32) -> (r: (u32, u32))
    ensures
        r == (if 5 <= orientation <= 8 { (dims.1, dims.0) } else { dims }),
{
    let (w, h) = dims;
    if 5 <= orientation && orientation <= 8 {
        (h, w)
    } else {
        (w, h)
    }
}

// --- Dates ----------------------------------------------------------------

/// A calendar date and a time of day, as an EXIF block states them.
#[derive(Debug, Clone, Copy, PartialEq, Eq, Structural)]
pub struct DateHeure {
    pub annee: i32,
    pub mois: u32,
    pub jour: u32,
    pub heure: u32,
    pub minute: u32,
    pub seconde: u32,
}

/// What `chrono::NaiveDateTime::parse_from_str` reads in a text under a
/// format: a pure function of the two.
pub uninterp spec fn date_lue(texte: Seq<char>, motif: Seq<char>) -> Option<DateHeure>;

/// `chrono::NaiveDateTime::parse_from_str`, its error dropped and its date
/// taken apart into fields. Believed: that the result depends on the text
/// and the format alone.
#[verifier::external_body]
fn lire_date(texte: &str, motif: &str) -> (r: Option<DateHeure>)
    ensures
        r == date_lue(texte@, motif@),
{
    chrono::NaiveDateTime::parse_from_str(texte, motif).ok().map(|d| DateHeure {
        annee: d.year(),
        mois: d.month(),
        jour: d.day(),
        heure: d.hour(),
        minute: d.minute(),
        seconde: d.second(),
    })
}

/// The standard's spelling of an EXIF date.
pub const FORMAT_EXIF: &'static str = "%Y:%m:%d %H:%M:%S";
/// The dashed spelling the exif crate displays.
pub const FORMAT_TIRETS: &'static str = "%Y-%m-%d %H:%M:%S";

/// An EXIF date in either spelling met in the wild, around white space.
pub open spec fn date_exif_lue(s: Seq<char>) -> Option<DateHeure> {
    match date_lue(rogne(s), FORMAT_EXIF@) {
        Some(d) => Some(d),
        None => date_lue(rogne(s), FORMAT_TIRETS@),
    }
}

pub fn date_exif(s: &str) -> (r: Option<DateHeure>)
    ensures
        r == date_exif_lue(s@),
{
    let v = caracteres(s);
    let t = rogner(v.as_slice());
    let ts = crate::chaines::chaine(t.as_slice());
    match lire_date(ts.as_str(), FORMAT_EXIF) {
        Some(d) => Some(d),
        None => lire_date(ts.as_str(), FORMAT_TIRETS),
    }
}

} // verus!
