//! Big-endian integer encoding and decoding over byte sequences.
use vstd::prelude::*;

verus! {

/// The two bytes of `v`, most significant first.
pub open spec fn be16(v: u16) -> Seq<u8> {
    seq![(v >> 8u16) as u8, (v & 0xffu16) as u8]
}

/// The four bytes of `v`, most significant first.
pub open spec fn be32(v: u32) -> Seq<u8> {
    seq![(v >> 24u32) as u8, ((v >> 16u32) & 0xffu32) as u8, ((v >> 8u32) & 0xffu32) as u8, (v & 0xffu32) as u8]
}

/// The eight bytes of `v`, most significant first.
pub open spec fn be64(v: u64) -> Seq<u8> {
    be32((v >> 32u64) as u32) + be32((v & 0xffff_ffffu64) as u32)
}

/// The sixteen bytes of `v`, most significant first.
pub open spec fn be128(v: u128) -> Seq<u8> {
    be64((v >> 64u128) as u64) + be64((v & 0xffff_ffff_ffff_ffffu128) as u64)
}

/// The big-endian `u16` stored at `s[i..i + 2]`.
pub open spec fn u16_at(s: Seq<u8>, i: int) -> u16 {
    ((s[i] as u16) << 8u16) | (s[i + 1] as u16)
}

/// The big-endian `u32` stored at `s[i..i + 4]`.
pub open spec fn u32_at(s: Seq<u8>, i: int) -> u32 {
    ((s[i] as u32) << 24u32) | ((s[i + 1] as u32) << 16u32) | ((s[i + 2] as u32) << 8u32) | (s[i + 3] as u32)
}

/// The big-endian `u64` stored at `s[i..i + 8]`.
pub open spec fn u64_at(s: Seq<u8>, i: int) -> u64 {
    ((u32_at(s, i) as u64) << 32u64) | (u32_at(s, i + 4) as u64)
}

/// The big-endian `u128` stored at `s[i..i + 16]`.
pub open spec fn u128_at(s: Seq<u8>, i: int) -> u128 {
    ((u64_at(s, i) as u128) << 64u128) | (u64_at(s, i + 8) as u128)
}

proof fn lemma_u32_bytes(v: u32)
    ensures
        ((((v >> 24u32) as u8) as u32) << 24u32) | ((((v >> 16u32) & 0xffu32) as u8 as u32) << 16u32)
            | ((((v >> 8u32) & 0xffu32) as u8 as u32) << 8u32) | (((v & 0xffu32) as u8) as u32) == v,
{
    assert(((((v >> 24u32) as u8) as u32) << 24u32) | ((((v >> 16u32) & 0xffu32) as u8 as u32) << 16u32)
        | ((((v >> 8u32) & 0xffu32) as u8 as u32) << 8u32) | (((v & 0xffu32) as u8) as u32) == v)
        by (bit_vector);
}

/// Reading back the four bytes that encode `v` gives `v`.
pub proof fn lemma_be32_round_trip(v: u32)
    ensures
        u32_at(be32(v), 0) == v,
{
    lemma_u32_bytes(v);
}

/// Appends the big-endian encoding of `v`.
pub fn put_u8(out: &mut Vec<u8>, v: u8)
    ensures
        final(out)@ == old(out)@.push(v),
{
    out.push(v);
}

/// Appends the big-endian encoding of `v`.
pub fn put_u16(out: &mut Vec<u8>, v: u16)
    ensures
        final(out)@ == old(out)@ + be16(v),
{
    out.push((v >> 8u16) as u8);
    out.push((v & 0xffu16) as u8);
    assert(out@ =~= old(out)@ + be16(v));
}

/// Appends the big-endian encoding of `v`.
pub fn put_u32(out: &mut Vec<u8>, v: u32)
    ensures
        final(out)@ == old(out)@ + be32(v),
{
    out.push((v >> 24u32) as u8);
    out.push(((v >> 16u32) & 0xffu32) as u8);
    out.push(((v >> 8u32) & 0xffu32) as u8);
    out.push((v & 0xffu32) as u8);
    assert(out@ =~= old(out)@ + be32(v));
}

/// Appends the big-endian encoding of `v`.
pub fn put_u64(out: &mut Vec<u8>, v: u64)
    ensures
        final(out)@ == old(out)@ + be64(v),
{
    put_u32(out, (v >> 32u64) as u32);
    put_u32(out, (v & 0xffff_ffffu64) as u32);
    assert(out@ =~= old(out)@ + be64(v));
}

/// Appends the big-endian encoding of `v`.
pub fn put_u128(out: &mut Vec<u8>, v: u128)
    ensures
        final(out)@ == old(out)@ + be128(v),
{
    put_u64(out, (v >> 64u128) as u64);
    put_u64(out, (v & 0xffff_ffff_ffff_ffffu128) as u64);
    assert(out@ =~= old(out)@ + be128(v));
}

/// Reads the big-endian `u16` at `s[i..i + 2]`.
pub fn get_u16(s: &[u8], i: usize) -> (r: u16)
    requires
        i + 2 <= s@.len(),
    ensures
        r == u16_at(s@, i as int),
{
    ((s[i] as u16) << 8u16) | (s[i + 1] as u16)
}

/// Reads the big-endian `u32` at `s[i..i + 4]`.
pub fn get_u32(s: &[u8], i: usize) -> (r: u32)
    requires
        i + 4 <= s@.len(),
    ensures
        r == u32_at(s@, i as int),
{
    ((s[i] as u32) << 24u32) | ((s[i + 1] as u32) << 16u32) | ((s[i + 2] as u32) << 8u32) | (s[i + 3] as u32)
}

/// Reads the big-endian `u64` at `s[i..i + 8]`.
pub fn get_u64(s: &[u8], i: usize) -> (r: u64)
    requires
        i + 8 <= s@.len(),
    ensures
        r == u64_at(s@, i as int),
{
    let _n = s.len();
    ((get_u32(s, i) as u64) << 32u64) | (get_u32(s, i + 4) as u64)
}

/// Reads the big-endian `u128` at `s[i..i + 16]`.
pub fn get_u128(s: &[u8], i: usize) -> (r: u128)
    requires
        i + 16 <= s@.len(),
    ensures
        r == u128_at(s@, i as int),
{
    let _n = s.len();
    ((get_u64(s, i) as u128) << 64u128) | (get_u64(s, i + 8) as u128)
}

}
