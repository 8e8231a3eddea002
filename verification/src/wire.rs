//! Byte-level helpers shared by the encoders and parsers: big-endian
//! integers, and copying between slices and vectors.

use vstd::prelude::*;

verus! {

/// The two bytes of `x`, most significant first.
pub open spec fn be16(x: u16) -> Seq<u8> {
    seq![(x / 256) as u8, (x % 256) as u8]
}

/// The number whose big-endian bytes are `hi`, `lo`.
pub open spec fn from_be16(hi: u8, lo: u8) -> u16 {
    (hi * 256 + lo) as u16
}

/// The four bytes of `x`, most significant first.
pub open spec fn be32(x: u32) -> Seq<u8> {
    seq![
        (x / 0x100_0000) as u8,
        ((x / 0x1_0000) % 256) as u8,
        ((x / 0x100) % 256) as u8,
        (x % 256) as u8,
    ]
}

/// The number whose big-endian bytes are `b0`, `b1`, `b2`, `b3`.
pub open spec fn from_be32(b0: u8, b1: u8, b2: u8, b3: u8) -> u32 {
    (b0 * 0x100_0000 + b1 * 0x1_0000 + b2 * 0x100 + b3) as u32
}

/// Reading back what `be16` wrote gives the number again.
pub proof fn lemma_be16_round_trip(x: u16)
    ensures
        be16(x).len() == 2,
        from_be16(be16(x)[0], be16(x)[1]) == x,
{
}

/// Reading back what `be32` wrote gives the number again.
pub proof fn lemma_be32_round_trip(x: u32)
    ensures
        be32(x).len() == 4,
        from_be32(be32(x)[0], be32(x)[1], be32(x)[2], be32(x)[3]) == x,
{
}

/// Appends the big-endian bytes of `x` to `out`.
pub fn push_be16(out: &mut Vec<u8>, x: u16)
    ensures
        final(out)@ == old(out)@ + be16(x),
{
    out.push((x / 256) as u8);
    out.push((x % 256) as u8);
    assert(out@ =~= old(out)@ + be16(x));
}

/// Appends the big-endian bytes of `x` to `out`.
pub fn push_be32(out: &mut Vec<u8>, x: u32)
    ensures
        final(out)@ == old(out)@ + be32(x),
{
    out.push((x / 0x100_0000) as u8);
    out.push(((x / 0x1_0000) % 256) as u8);
    out.push(((x / 0x100) % 256) as u8);
    out.push((x % 256) as u8);
    assert(out@ =~= old(out)@ + be32(x));
}

/// Reads the big-endian `u16` at `buf[at..at + 2]`.
pub fn read_be16(buf: &[u8], at: usize) -> (x: u16)
    requires
        at + 2 <= buf@.len(),
    ensures
        x == from_be16(buf@[at as int], buf@[at + 1]),
{
    let hi: u16 = buf[at] as u16;
    let lo: u16 = buf[at + 1] as u16;
    hi * 256 + lo
}

/// Reads the big-endian `u32` at `buf[at..at + 4]`.
pub fn read_be32(buf: &[u8], at: usize) -> (x: u32)
    requires
        at + 4 <= buf@.len(),
    ensures
        x == from_be32(buf@[at as int], buf@[at + 1], buf@[at + 2], buf@[at + 3]),
{
    let b0: u32 = buf[at] as u32;
    let b1: u32 = buf[at + 1] as u32;
    let b2: u32 = buf[at + 2] as u32;
    let b3: u32 = buf[at + 3] as u32;
    b0 * 0x100_0000 + b1 * 0x1_0000 + b2 * 0x100 + b3
}

/// Appends all of `src` to `out`.
pub fn append_slice(out: &mut Vec<u8>, src: &[u8])
    ensures
        final(out)@ == old(out)@ + src@,
{
    let n: usize = src.len();
    let mut i: usize = 0;
    while i < n
        invariant
            n == src@.len(),
            i <= n,
            out@ == old(out)@ + src@.subrange(0, i as int),
        decreases n - i,
    {
        out.push(src[i]);
        i = i + 1;
        assert(out@ =~= old(out)@ + src@.subrange(0, i as int));
    }
    assert(src@.subrange(0, n as int) =~= src@);
}

/// A fresh vector holding `src[start..end]`.
pub fn copy_range(src: &[u8], start: usize, end: usize) -> (v: Vec<u8>)
    requires
        start <= end <= src@.len(),
    ensures
        v@ == src@.subrange(start as int, end as int),
{
    let mut v: Vec<u8> = Vec::new();
    let mut i: usize = start;
    while i < end
        invariant
            start <= i <= end <= src@.len(),
            v@ == src@.subrange(start as int, i as int),
        decreases end - i,
    {
        v.push(src[i]);
        i = i + 1;
        assert(v@ =~= src@.subrange(start as int, i as int));
    }
    v
}

/// A fresh vector holding the same bytes as `src`.
pub fn copy_bytes(src: &[u8]) -> (v: Vec<u8>)
    ensures
        v@ == src@,
{
    let v = copy_range(src, 0, src.len());
    assert(src@.subrange(0, src@.len() as int) =~= src@);
    v
}

/// Whether two byte strings are equal. Inputs of different lengths are told
/// apart at once. For inputs of one length every byte is looked at whatever
/// the outcome, so the time taken does not tell where the first difference
/// lies.
pub fn bytes_equal(a: &[u8], b: &[u8]) -> (same: bool)
    ensures
        same == (a@ == b@),
{
    let n: usize = a.len();
    if n != b.len() {
        return false;
    }
    let mut differs: bool = false;
    let mut i: usize = 0;
    assert(a@.subrange(0, 0) =~= b@.subrange(0, 0));
    while i < n
        invariant
            n == a@.len(),
            n == b@.len(),
            i <= n,
            differs == (a@.subrange(0, i as int) != b@.subrange(0, i as int)),
        decreases n - i,
    {
        let ghost before = i as int;
        if a[i] != b[i] {
            differs = true;
        }
        i = i + 1;
        proof {
            let pa = a@.subrange(0, before);
            let pb = b@.subrange(0, before);
            let qa = a@.subrange(0, i as int);
            let qb = b@.subrange(0, i as int);
            assert(qa.subrange(0, before) =~= pa);
            assert(qb.subrange(0, before) =~= pb);
            assert(qa[before] == a@[before]);
            assert(qb[before] == b@[before]);
            if pa == pb && a@[before] == b@[before] {
                assert(qa =~= qb);
            }
        }
    }
    assert(a@.subrange(0, n as int) =~= a@);
    assert(b@.subrange(0, n as int) =~= b@);
    !differs
}

} // verus!
