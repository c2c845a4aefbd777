//! The two distances the composer and the linter compare photographs by:
//! bits apart between two perceptual hashes, and the mean channel gap
//! between two tiny colour signatures. Computing the hashes and signatures
//! needs the pixels, and is the application's business.

use vstd::prelude::*;

verus! {

/// The number of bits set in `x`.
pub open spec fn bits_a_un(x: u64) -> nat
    decreases x,
{
    if x == 0 {
        0
    } else {
        bits_a_un(x / 2) + (x % 2) as nat
    }
}

/// How many bits two 64-bit hashes differ by (`(a ^ b).count_ones()`).
pub fn hamming(a: u64, b: u64) -> (d: u32)
    ensures
        d == bits_a_un(a ^ b),
        d <= 64,
{
    let mut x: u64 = a ^ b;
    let mut d: u32 = 0;
    let mut tours: u32 = 0;
    proof {
        lemme_pow2_64();
    }
    while x != 0
        invariant
            d + bits_a_un(x) == bits_a_un(a ^ b),
            tours <= 64,
            d <= tours,
            x < pow2_u64((64 - tours) as nat),
        decreases x,
    {
        proof {
            lemme_pow2_moitie(x, tours);
        }
        d = d + (x % 2) as u32;
        x = x / 2;
        tours = tours + 1;
    }
    d
}

/// 2 to the power `n`, for `n` up to 64.
pub open spec fn pow2_u64(n: nat) -> nat
    decreases n,
{
    if n == 0 {
        1
    } else {
        2 * pow2_u64((n - 1) as nat)
    }
}

proof fn lemme_pow2_64()
    ensures
        pow2_u64(64) == 0x1_0000_0000_0000_0000,
{
    reveal_with_fuel(pow2_u64, 65);
}

proof fn lemme_pow2_moitie(x: u64, tours: u32)
    requires
        x != 0,
        tours <= 64,
        x < pow2_u64((64 - tours) as nat),
    ensures
        tours < 64,
        x / 2 < pow2_u64((64 - (tours + 1)) as nat),
{
    if tours == 64 {
        assert(pow2_u64(0) == 1);
    }
    assert(pow2_u64((64 - tours) as nat) == 2 * pow2_u64((64 - tours - 1) as nat));
}

/// The sum of the channel gaps between two signatures, over the first `n`
/// channels.
pub open spec fn ecarts(a: Seq<u8>, b: Seq<u8>, n: int) -> nat
    decreases n,
{
    if n <= 0 {
        0
    } else {
        ecarts(a, b, n - 1) + (if a[n - 1] >= b[n - 1] { a[n - 1] - b[n - 1] } else { b[n - 1] - a[n - 1] }) as nat
    }
}

/// Mean absolute channel difference between two colour signatures, rounded
/// down.
pub fn color_distance(a: &[u8; 12], b: &[u8; 12]) -> (d: u32)
    ensures
        d == ecarts(a@, b@, 12) / 12,
{
    let mut s: u32 = 0;
    let mut i: usize = 0;
    while i < 12
        invariant
            i <= 12,
            a@.len() == 12,
            b@.len() == 12,
            s == ecarts(a@, b@, i as int),
            s <= 255 * i,
        decreases 12 - i,
    {
        let x = a[i];
        let y = b[i];
        let e: u32 = if x >= y { (x - y) as u32 } else { (y - x) as u32 };
        s = s + e;
        i = i + 1;
    }
    s / 12
}

} // verus!
