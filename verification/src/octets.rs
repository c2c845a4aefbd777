//! Big-endian integers read out of a byte buffer, every read bounded: an
//! offset that runs off the end comes back as `None`, never as a panic.

use vstd::prelude::*;

verus! {

/// The two bytes at `at`, as a big-endian unsigned integer, when both exist.
pub open spec fn lu16(d: Seq<u8>, at: int) -> Option<u16> {
    if 0 <= at && at + 2 <= d.len() {
        Some((d[at] as int * 256 + d[at + 1] as int) as u16)
    } else {
        None
    }
}

/// The four bytes at `at`, as a big-endian unsigned integer, when all exist.
pub open spec fn lu32(d: Seq<u8>, at: int) -> Option<u32> {
    if 0 <= at && at + 4 <= d.len() {
        Some(
            (d[at] as int * 0x100_0000 + d[at + 1] as int * 0x1_0000 + d[at + 2] as int * 0x100
                + d[at + 3] as int) as u32,
        )
    } else {
        None
    }
}

/// Two's complement reading of a 16-bit pattern.
pub open spec fn signe16(v: u16) -> i16 {
    if v < 0x8000 { v as i16 } else { (v as int - 0x1_0000) as i16 }
}

/// Two's complement reading of a 32-bit pattern.
pub open spec fn signe32(v: u32) -> i32 {
    if v < 0x8000_0000 { v as i32 } else { (v as int - 0x1_0000_0000) as i32 }
}

/// A big-endian `u16` at `at`.
pub fn u16b(d: &[u8], at: usize) -> (r: Option<u16>)
    ensures
        r == lu16(d@, at as int),
{
    if at < d.len() && d.len() - at >= 2 {
        let hi = d[at] as u16;
        let lo = d[at + 1] as u16;
        Some(hi * 256 + lo)
    } else {
        None
    }
}

/// A big-endian `i16` at `at`.
pub fn i16b(d: &[u8], at: usize) -> (r: Option<i16>)
    ensures
        r == (match lu16(d@, at as int) {
            Some(v) => Some(signe16(v)),
            None => None,
        }),
{
    match u16b(d, at) {
        Some(v) => {
            if v < 0x8000 {
                Some(v as i16)
            } else {
                let w: i32 = v as i32 - 0x1_0000;
                Some(w as i16)
            }
        },
        None => None,
    }
}

/// A big-endian `u32` at `at`.
pub fn u32b(d: &[u8], at: usize) -> (r: Option<u32>)
    ensures
        r == lu32(d@, at as int),
{
    if at < d.len() && d.len() - at >= 4 {
        let a = d[at] as u32;
        let b = d[at + 1] as u32;
        let c = d[at + 2] as u32;
        let e = d[at + 3] as u32;
        Some(a * 0x100_0000 + b * 0x1_0000 + c * 0x100 + e)
    } else {
        None
    }
}

/// A big-endian `i32` at `at`.
pub fn i32b(d: &[u8], at: usize) -> (r: Option<i32>)
    ensures
        r == (match lu32(d@, at as int) {
            Some(v) => Some(signe32(v)),
            None => None,
        }),
{
    match u32b(d, at) {
        Some(v) => {
            if v < 0x8000_0000 {
                Some(v as i32)
            } else {
                let w: i64 = v as i64 - 0x1_0000_0000;
                Some(w as i32)
            }
        },
        None => None,
    }
}

} // verus!
