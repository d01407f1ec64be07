//! Fixed-width big-endian integer encodings.
use vstd::prelude::*;

verus! {

/// The eight bytes of `x`, most significant first.
pub open spec fn be_bytes_u64(x: u64) -> Seq<u8> {
    seq![
        (x >> 56u64) as u8,
        (x >> 48u64) as u8,
        (x >> 40u64) as u8,
        (x >> 32u64) as u8,
        (x >> 24u64) as u8,
        (x >> 16u64) as u8,
        (x >> 8u64) as u8,
        x as u8,
    ]
}

/// The four bytes of `x`, most significant first.
pub open spec fn be_bytes_u32(x: u32) -> Seq<u8> {
    seq![(x >> 24u32) as u8, (x >> 16u32) as u8, (x >> 8u32) as u8, x as u8]
}

/// The first sixteen bytes of a digest read as a big-endian 128-bit integer.
pub open spec fn sha_prefix(sha: Seq<u8>) -> u128 {
    (sha[0] as u128) << 120u128 | (sha[1] as u128) << 112u128 | (sha[2] as u128) << 104u128
        | (sha[3] as u128) << 96u128 | (sha[4] as u128) << 88u128 | (sha[5] as u128) << 80u128
        | (sha[6] as u128) << 72u128 | (sha[7] as u128) << 64u128 | (sha[8] as u128) << 56u128
        | (sha[9] as u128) << 48u128 | (sha[10] as u128) << 40u128 | (sha[11] as u128) << 32u128
        | (sha[12] as u128) << 24u128 | (sha[13] as u128) << 16u128 | (sha[14] as u128) << 8u128
        | sha[15] as u128
}

/// Appends the big-endian bytes of `x` to `out`.
pub(crate) fn push_be_u64(out: &mut Vec<u8>, x: u64)
    ensures
        final(out)@ == old(out)@ + be_bytes_u64(x),
{
    out.push((x >> 56u64) as u8);
    out.push((x >> 48u64) as u8);
    out.push((x >> 40u64) as u8);
    out.push((x >> 32u64) as u8);
    out.push((x >> 24u64) as u8);
    out.push((x >> 16u64) as u8);
    out.push((x >> 8u64) as u8);
    out.push(x as u8);
    assert(final(out)@ =~= old(out)@ + be_bytes_u64(x));
}

/// Appends the big-endian bytes of `x` to `out`.
pub(crate) fn push_be_u32(out: &mut Vec<u8>, x: u32)
    ensures
        final(out)@ == old(out)@ + be_bytes_u32(x),
{
    out.push((x >> 24u32) as u8);
    out.push((x >> 16u32) as u8);
    out.push((x >> 8u32) as u8);
    out.push(x as u8);
    assert(final(out)@ =~= old(out)@ + be_bytes_u32(x));
}

/// Appends every byte of `src` to `out`, in order.
pub(crate) fn push_all(out: &mut Vec<u8>, src: &[u8])
    ensures
        final(out)@ == old(out)@ + src@,
{
    let ghost start = out@;
    let mut i: usize = 0;
    while i < src.len()
        invariant
            i <= src@.len(),
            out@ == start + src@.subrange(0, i as int),
        decreases src@.len() - i,
    {
        out.push(src[i]);
        i = i + 1;
        assert(out@ =~= start + src@.subrange(0, i as int));
    }
    assert(src@.subrange(0, src@.len() as int) =~= src@);
}

/// The first sixteen bytes of `sha` read as a big-endian 128-bit integer.
pub(crate) fn read_sha_prefix(sha: &[u8; 32]) -> (r: u128)
    ensures
        r == sha_prefix(sha@),
{
    (sha[0] as u128) << 120u128 | (sha[1] as u128) << 112u128 | (sha[2] as u128) << 104u128
        | (sha[3] as u128) << 96u128 | (sha[4] as u128) << 88u128 | (sha[5] as u128) << 80u128
        | (sha[6] as u128) << 72u128 | (sha[7] as u128) << 64u128 | (sha[8] as u128) << 56u128
        | (sha[9] as u128) << 48u128 | (sha[10] as u128) << 40u128 | (sha[11] as u128) << 32u128
        | (sha[12] as u128) << 24u128 | (sha[13] as u128) << 16u128 | (sha[14] as u128) << 8u128
        | sha[15] as u128
}

/// Whether two digests hold the same bytes.
pub(crate) fn same_digest(a: &[u8; 32], b: &[u8; 32]) -> (r: bool)
    ensures
        r == (a@ == b@),
{
    let mut i: usize = 0;
    while i < 32
        invariant
            i <= 32,
            forall|j: int| 0 <= j < i ==> a@[j] == b@[j],
        decreases 32 - i,
    {
        if a[i] != b[i] {
            return false;
        }
        i = i + 1;
    }
    assert(a@ =~= b@);
    true
}

} // verus!
