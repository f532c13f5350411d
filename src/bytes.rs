//! Little-endian words and zero padding.
use vstd::prelude::*;

verus! {

/// The four bytes of `x`, least significant first.
pub open spec fn le32(x: u32) -> Seq<u8> {
    seq![(x & 0xff) as u8, ((x >> 8) & 0xff) as u8, ((x >> 16) & 0xff) as u8, (x >> 24) as u8]
}

/// `s` followed by zero bytes up to length `n` (`s` unchanged when already that long).
pub open spec fn zero_pad(s: Seq<u8>, n: nat) -> Seq<u8> {
    if s.len() >= n {
        s
    } else {
        s + Seq::new((n - s.len()) as nat, |_k: int| 0u8)
    }
}

/// The bytes of `le32(x)` read back least significant first give `x`.
pub proof fn lemma_le32_value(x: u32)
    ensures
        le32(x).len() == 4,
        le32(x)[0] as int + 0x100 * (le32(x)[1] as int) + 0x1_0000 * (le32(x)[2] as int)
            + 0x100_0000 * (le32(x)[3] as int) == x as int,
{
    let b0 = x & 0xff;
    let b1 = (x >> 8) & 0xff;
    let b2 = (x >> 16) & 0xff;
    let b3 = x >> 24;
    assert(b0 < 0x100 && b1 < 0x100 && b2 < 0x100 && b3 < 0x100) by (bit_vector)
        requires
            b0 == x & 0xff,
            b1 == (x >> 8) & 0xff,
            b2 == (x >> 16) & 0xff,
            b3 == x >> 24,
    ;
    assert(x == b0 + 0x100 * b1 + 0x1_0000 * b2 + 0x100_0000 * b3) by (bit_vector)
        requires
            b0 == x & 0xff,
            b1 == (x >> 8) & 0xff,
            b2 == (x >> 16) & 0xff,
            b3 == x >> 24,
    ;
}

/// Appends the four little-endian bytes of `block` to `vec`.
pub fn write_little_endian(vec: &mut Vec<u8>, block: u32)
    ensures
        final(vec)@ == old(vec)@ + le32(block),
{
    vec.push((block & 0xff) as u8);
    vec.push(((block >> 8) & 0xff) as u8);
    vec.push(((block >> 16) & 0xff) as u8);
    vec.push((block >> 24) as u8);
    assert(final(vec)@ =~= old(vec)@ + le32(block));
}

/// Appends zero bytes to `vec` until it holds `width` bytes.
pub fn pad_to(vec: &mut Vec<u8>, width: usize)
    ensures
        final(vec)@ == zero_pad(old(vec)@, width as nat),
{
    let ghost start = vec@;
    while vec.len() < width
        invariant
            start.len() <= vec@.len() <= width || vec@ == start,
            vec@.subrange(0, start.len() as int) == start,
            forall|k: int| start.len() <= k < vec@.len() ==> vec@[k] == 0u8,
        decreases width - vec@.len(),
    {
        vec.push(0u8);
    }
    assert(final(vec)@ =~= zero_pad(start, width as nat));
}

/// Appends `n` zero bytes to `vec`.
pub fn push_zeros(vec: &mut Vec<u8>, n: usize)
    ensures
        final(vec)@ == old(vec)@ + Seq::new(n as nat, |_k: int| 0u8),
{
    let ghost start = vec@;
    let mut j: usize = 0;
    while j < n
        invariant
            j <= n,
            vec@ == start + Seq::new(j as nat, |_k: int| 0u8),
        decreases n - j,
    {
        vec.push(0u8);
        j += 1;
        assert(vec@ =~= start + Seq::new(j as nat, |_k: int| 0u8));
    }
}

/// Zero-padded copy of `src[start..end]`, `width` bytes long when the copy is shorter.
pub fn padded_copy(src: &[u8], start: usize, end: usize, width: usize) -> (r: Vec<u8>)
    requires
        start <= end <= src@.len(),
    ensures
        r@ == zero_pad(src@.subrange(start as int, end as int), width as nat),
{
    let mut out: Vec<u8> = Vec::new();
    let mut j: usize = start;
    while j < end
        invariant
            start <= j <= end <= src@.len(),
            out@ == src@.subrange(start as int, j as int),
        decreases end - j,
    {
        out.push(src[j]);
        j += 1;
        assert(out@ =~= src@.subrange(start as int, j as int));
    }
    pad_to(&mut out, width);
    out
}

} // verus!
