//! The destination colour profile a PDF/X file carries. An ICC profile is a
//! 128-byte header of big-endian fields at known offsets; the point here is
//! not to interpret colour but to refuse an asset that is not the profile we
//! think it is.

use vstd::prelude::*;
use crate::octets::lu32;

verus! {

/// The name the OutputIntent carries, and the one printers recognise.
pub const CONDITION: &'static str = "sRGB IEC61966-2.1";

/// The ICC registry, for `/RegistryName`.
pub const REGISTRY: &'static str = "http://www.color.org";

/// What the PDF needs to know about a profile.
#[derive(Debug, Clone, Copy)]
pub struct Header {
    /// Size the profile declares for itself, which must match the bytes.
    pub size: u32,
    /// Major version. PDF/X-4 and PDF/A-2 both refuse a v5 profile.
    pub version_major: u8,
    /// `mntr`, `prtr`, `scnr`, `spac`…
    pub class: [u8; 4],
    /// Data colour space: `RGB `, `CMYK`, `GRAY`.
    pub space: [u8; 4],
    /// Profile connection space.
    pub pcs: [u8; 4],
}

/// Why a profile is refused.
#[derive(Debug, Clone, Copy)]
pub enum ErreurIcc {
    /// Shorter than a header and the first tag count.
    Tronque(usize),
    /// No `acsp` at bytes 36..40: not an ICC profile at all.
    SansSignature,
    /// The size the header announces is not the size of the bytes.
    TailleAnnoncee { annonce: u32, reelle: usize },
    /// A colour space the export does not handle.
    EspaceNonGere([u8; 4]),
}

/// `GRAY` has one colorant, `RGB ` three, `CMYK` four.
pub open spec fn colorants(space: Seq<u8>) -> Option<i64> {
    if space == seq![71u8, 82u8, 65u8, 89u8] {
        Some(1)
    } else if space == seq![82u8, 71u8, 66u8, 32u8] {
        Some(3)
    } else if space == seq![67u8, 77u8, 89u8, 75u8] {
        Some(4)
    } else {
        None
    }
}

impl Header {
    /// Number of colorants, for the stream's `/N`.
    pub fn components(&self) -> (r: Result<i64, ErreurIcc>)
        ensures
            match colorants(self.space@) {
                Some(n) => r == Ok::<i64, ErreurIcc>(n),
                None => r == Err::<i64, ErreurIcc>(ErreurIcc::EspaceNonGere(self.space)),
            },
    {
        let s = self.space;
        if s[0] == 71 && s[1] == 82 && s[2] == 65 && s[3] == 89 {
            assert(s@ =~= seq![71u8, 82u8, 65u8, 89u8]);
            Ok(1)
        } else if s[0] == 82 && s[1] == 71 && s[2] == 66 && s[3] == 32 {
            assert(s@ =~= seq![82u8, 71u8, 66u8, 32u8]);
            Ok(3)
        } else if s[0] == 67 && s[1] == 77 && s[2] == 89 && s[3] == 75 {
            assert(s@ =~= seq![67u8, 77u8, 89u8, 75u8]);
            Ok(4)
        } else {
            Err(ErreurIcc::EspaceNonGere(s))
        }
    }
}

/// The `acsp` signature at bytes 36..40.
pub open spec fn signe_acsp(d: Seq<u8>) -> bool {
    d[36] == 97u8 && d[37] == 99u8 && d[38] == 115u8 && d[39] == 112u8
}

/// Read a profile's header, refusing what is not a whole ICC profile: too
/// short, no `acsp` signature, or a declared size that is not its own.
pub fn parse(d: &[u8]) -> (r: Result<Header, ErreurIcc>)
    ensures
        d@.len() < 132 ==> r == Err::<Header, ErreurIcc>(ErreurIcc::Tronque(d@.len() as usize)),
        d@.len() >= 132 && !signe_acsp(d@) ==> r == Err::<Header, ErreurIcc>(ErreurIcc::SansSignature),
        d@.len() >= 132 && signe_acsp(d@) && lu32(d@, 0).unwrap() != d@.len() ==>
            r == Err::<Header, ErreurIcc>(ErreurIcc::TailleAnnoncee { annonce: lu32(d@, 0).unwrap(), reelle: d@.len() as usize }),
        r is Ok <==> d@.len() >= 132 && signe_acsp(d@) && lu32(d@, 0).unwrap() == d@.len(),
        r matches Ok(h) ==> {
            &&& Some(h.size) == lu32(d@, 0)
            &&& h.version_major == d@[8]
            &&& h.class@ == d@.subrange(12, 16)
            &&& h.space@ == d@.subrange(16, 20)
            &&& h.pcs@ == d@.subrange(20, 24)
        },
{
    if d.len() < 132 {
        return Err(ErreurIcc::Tronque(d.len()));
    }
    if !(d[36] == 97 && d[37] == 99 && d[38] == 115 && d[39] == 112) {
        return Err(ErreurIcc::SansSignature);
    }
    let size = match crate::octets::u32b(d, 0) {
        Some(s) => s,
        None => return Err(ErreurIcc::Tronque(d.len())),
    };
    if size as usize != d.len() {
        return Err(ErreurIcc::TailleAnnoncee { annonce: size, reelle: d.len() });
    }
    let h = Header {
        size,
        version_major: d[8],
        class: [d[12], d[13], d[14], d[15]],
        space: [d[16], d[17], d[18], d[19]],
        pcs: [d[20], d[21], d[22], d[23]],
    };
    assert(h.class@ =~= d@.subrange(12, 16));
    assert(h.space@ =~= d@.subrange(16, 20));
    assert(h.pcs@ =~= d@.subrange(20, 24));
    Ok(h)
}

} // verus!
