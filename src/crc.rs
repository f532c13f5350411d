//! CRC-32 with the standard (reflected 0x04C11DB7) polynomial, as used by zip and Ethernet.
use vstd::prelude::*;

verus! {

/// The reflected form of the CRC-32 generator polynomial.
pub const CRC32_POLY: u32 = 0xEDB8_8320;

/// One bit of the register shifted out, with the polynomial folded in when that bit is set.
pub open spec fn crc_shift(c: u32) -> u32 {
    if c & 1 == 1 {
        (c >> 1) ^ CRC32_POLY
    } else {
        c >> 1
    }
}

/// `crc_shift` applied `n` times.
pub open spec fn crc_shifts(c: u32, n: nat) -> u32
    decreases n,
{
    if n == 0 {
        c
    } else {
        crc_shifts(crc_shift(c), (n - 1) as nat)
    }
}

/// The register after one more byte.
pub open spec fn crc_step(c: u32, b: u8) -> u32 {
    crc_shifts(c ^ (b as u32), 8)
}

/// The register after all of `s`, starting from all ones.
pub open spec fn crc_register(s: Seq<u8>) -> u32
    decreases s.len(),
{
    if s.len() == 0 {
        0xFFFF_FFFF
    } else {
        crc_step(crc_register(s.drop_last()), s.last())
    }
}

/// The CRC-32 of `s`: the final register with every bit inverted.
pub open spec fn crc32_of(s: Seq<u8>) -> u32 {
    crc_register(s) ^ 0xFFFF_FFFF
}

/// The CRC-32 of `data`.
pub fn crc32(data: &[u8]) -> (r: u32)
    ensures
        r == crc32_of(data@),
{
    let mut c: u32 = 0xFFFF_FFFF;
    let mut i: usize = 0;
    while i < data.len()
        invariant
            i <= data@.len(),
            c == crc_register(data@.take(i as int)),
        decreases data@.len() - i,
    {
        let b = data[i];
        let mut v: u32 = c ^ (b as u32);
        let mut k: usize = 0;
        while k < 8
            invariant
                k <= 8,
                crc_shifts(v, (8 - k) as nat) == crc_step(c, b),
            decreases 8 - k,
        {
            let next: u32 = if v & 1 == 1 {
                (v >> 1) ^ CRC32_POLY
            } else {
                v >> 1
            };
            assert(crc_shifts(v, (8 - k) as nat) == crc_shifts(next, (8 - k - 1) as nat));
            v = next;
            k += 1;
        }
        assert(data@.take(i + 1).drop_last() =~= data@.take(i as int));
        c = v;
        i += 1;
    }
    assert(data@.take(data@.len() as int) =~= data@);
    c ^ 0xFFFF_FFFF
}

} // verus!
