//! Little-endian reading and writing of fixed-width fields in byte buffers.

use vstd::prelude::*;
use vstd::bytes::*;
use vstd::slice::slice_subrange;

verus! {

/// The little-endian value of the four bytes of `b` that start at `off`.
pub open spec fn u32_at(b: Seq<u8>, off: int) -> u32 {
    spec_u32_from_le_bytes(b.subrange(off, off + 4))
}

/// The little-endian value of the eight bytes of `b` that start at `off`.
pub open spec fn u64_at(b: Seq<u8>, off: int) -> u64 {
    spec_u64_from_le_bytes(b.subrange(off, off + 8))
}

/// Reads the little-endian `u32` at `off`.
pub fn read_u32(b: &[u8], off: usize) -> (x: u32)
    requires
        off + 4 <= b.len(),
    ensures
        x == u32_at(b@, off as int),
{
    u32_from_le_bytes(slice_subrange(b, off, off + 4))
}

/// Reads the little-endian `u64` at `off`.
pub fn read_u64(b: &[u8], off: usize) -> (x: u64)
    requires
        off + 8 <= b.len(),
    ensures
        x == u64_at(b@, off as int),
{
    u64_from_le_bytes(slice_subrange(b, off, off + 8))
}

/// Copies the `N` bytes of `b` that start at `off` into an array.
pub fn read_array<const N: usize>(b: &[u8], off: usize) -> (a: [u8; N])
    requires
        off + N <= b.len(),
    ensures
        a@ == b@.subrange(off as int, off + N),
{
    let mut a = [0u8; N];
    let mut i: usize = 0;
    while i < N
        invariant
            i <= N,
            off + N <= b.len(),
            a@.len() == N,
            forall|j: int| 0 <= j < i ==> a@[j] == b@[off + j],
        decreases N - i,
    {
        a[i] = b[off + i];
        i = i + 1;
    }
    assert(a@ =~= b@.subrange(off as int, off + N));
    a
}

/// Appends the bytes of `s` to `out`.
pub fn push_bytes(out: &mut Vec<u8>, s: &[u8])
    ensures
        final(out)@ == old(out)@ + s@,
{
    let mut i: usize = 0;
    while i < s.len()
        invariant
            i <= s@.len(),
            out@ == old(out)@ + s@.subrange(0, i as int),
        decreases s@.len() - i,
    {
        out.push(s[i]);
        i = i + 1;
        assert(out@ =~= old(out)@ + s@.subrange(0, i as int));
    }
    assert(s@.subrange(0, s@.len() as int) =~= s@);
}

/// Appends the little-endian bytes of `x` to `out`.
pub fn push_u32(out: &mut Vec<u8>, x: u32)
    ensures
        final(out)@ == old(out)@ + spec_u32_to_le_bytes(x),
{
    let v = u32_to_le_bytes(x);
    push_bytes(out, v.as_slice());
}

/// Appends the little-endian bytes of `x` to `out`.
pub fn push_u64(out: &mut Vec<u8>, x: u64)
    ensures
        final(out)@ == old(out)@ + spec_u64_to_le_bytes(x),
{
    let v = u64_to_le_bytes(x);
    push_bytes(out, v.as_slice());
}

/// Encoding a `u32` and reading it back gives the value; four bytes read and
/// encoded again give the same bytes.
pub proof fn lemma_u32_le(x: u32, s: Seq<u8>)
    ensures
        spec_u32_to_le_bytes(x).len() == 4,
        spec_u32_from_le_bytes(spec_u32_to_le_bytes(x)) == x,
        s.len() == 4 ==> spec_u32_to_le_bytes(spec_u32_from_le_bytes(s)) == s,
{
    lemma_auto_spec_u32_to_from_le_bytes();
    assert(spec_u32_to_le_bytes(x).len() == 4);
    if s.len() == 4 {
        assert(spec_u32_to_le_bytes(spec_u32_from_le_bytes(s)) == s);
    }
}

/// Encoding a `u64` and reading it back gives the value; eight bytes read and
/// encoded again give the same bytes.
pub proof fn lemma_u64_le(x: u64, s: Seq<u8>)
    ensures
        spec_u64_to_le_bytes(x).len() == 8,
        spec_u64_from_le_bytes(spec_u64_to_le_bytes(x)) == x,
        s.len() == 8 ==> spec_u64_to_le_bytes(spec_u64_from_le_bytes(s)) == s,
{
    lemma_auto_spec_u64_to_from_le_bytes();
    assert(spec_u64_to_le_bytes(x).len() == 8);
    if s.len() == 8 {
        assert(spec_u64_to_le_bytes(spec_u64_from_le_bytes(s)) == s);
    }
}

/// The 64 bytes of report data that bind a 32-byte hash into a report:
/// the hash, then zeros.
pub open spec fn hash_report_data_of(hash: Seq<u8>) -> Seq<u8> {
    hash + Seq::new(32, |_i: int| 0u8)
}

/// The report data that binds `hash`: the hash in the first 32 bytes,
/// zeros after.
pub fn hash_report_data(hash: &[u8; 32]) -> (r: [u8; 64])
    ensures
        r@ == hash_report_data_of(hash@),
{
    let mut report_data = [0u8; 64];
    let mut i: usize = 0;
    while i < 32
        invariant
            i <= 32,
            report_data@.len() == 64,
            forall|j: int| 0 <= j < i ==> report_data@[j] == hash@[j],
            forall|j: int| 32 <= j < 64 ==> report_data@[j] == 0,
        decreases 32 - i,
    {
        report_data[i] = hash[i];
        i = i + 1;
    }
    assert(report_data@ =~= hash_report_data_of(hash@));
    report_data
}

} // verus!
