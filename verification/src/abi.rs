//! A region of memory as one number: its address in the upper half, its length
//! in the lower.

use vstd::prelude::*;

verus! {

/// The region at address `p` of length `n` as one number.
pub open spec fn packed(p: u32, n: u32) -> int {
    p * 0x1_0000_0000 + n
}

/// The region at address `p` of length `n` as one number.
pub fn pack(p: u32, n: u32) -> (r: u64)
    ensures
        r == packed(p, n),
{
    let a: u64 = p as u64;
    let b: u64 = n as u64;
    proof {
        assert((a << 32) | b == a * 0x1_0000_0000 + b) by (bit_vector)
            requires
                a <= 0xffff_ffff,
                b <= 0xffff_ffff,
        ;
    }
    (a << 32) | b
}

/// The address and the length of the region that the number stands for.
pub fn unpack(x: u64) -> (r: (u32, u32))
    ensures
        x == packed(r.0, r.1),
{
    proof {
        assert(((x >> 32) as u32) as u64 * 0x1_0000_0000 + (x as u32) as u64 == x) by (bit_vector);
    }
    ((x >> 32) as u32, x as u32)
}

/// Different regions have different numbers, so a number stands for one region.
pub proof fn packing_injective(p: u32, n: u32, q: u32, m: u32)
    requires
        packed(p, n) == packed(q, m),
    ensures
        p == q,
        n == m,
{
}

/// The address is in the upper 32 bits of the number, and the length in the lower.
pub proof fn packing_divides(p: u32, n: u32)
    ensures
        packed(p, n) / 0x1_0000_0000 == p,
        packed(p, n) % 0x1_0000_0000 == n,
        0 <= packed(p, n) <= u64::MAX,
{
}

} // verus!
