//! Byte-level building blocks shared by the codecs: fixed-width integers in
//! both byte orders, zero padding, and appending to an output buffer.

use vstd::prelude::*;

verus! {

/// The number spelled by two bytes, most significant first.
pub open spec fn be16(hi: u8, lo: u8) -> nat {
    (hi as nat) * 256 + (lo as nat)
}

/// The number spelled by two bytes, least significant first.
pub open spec fn le16(lo: u8, hi: u8) -> nat {
    (hi as nat) * 256 + (lo as nat)
}

/// The two bytes of a 16-bit number, most significant first.
pub open spec fn be16_bytes(v: u16) -> Seq<u8> {
    seq![(v / 256) as u8, (v % 256) as u8]
}

/// The four bytes of a 32-bit number, most significant first.
pub open spec fn be32_bytes(v: u32) -> Seq<u8> {
    seq![
        (v / 0x100_0000) as u8,
        ((v / 0x1_0000) % 256) as u8,
        ((v / 0x100) % 256) as u8,
        (v % 256) as u8,
    ]
}

/// The number spelled by four bytes, most significant first.
pub open spec fn be32(b0: u8, b1: u8, b2: u8, b3: u8) -> nat {
    (b0 as nat) * 0x100_0000 + (b1 as nat) * 0x1_0000 + (b2 as nat) * 0x100 + (b3 as nat)
}

/// A run of `n` zero bytes.
pub open spec fn zeros(n: nat) -> Seq<u8> {
    Seq::new(n, |i: int| 0u8)
}

/// `bytes` followed by as many zero bytes as it takes to fill `width`.
pub open spec fn zero_padded(bytes: Seq<u8>, width: nat) -> Seq<u8>
    recommends
        bytes.len() <= width,
{
    bytes + zeros((width - bytes.len()) as nat)
}

/// Writing a 16-bit number most significant byte first and reading it back
/// gives the number again, and the other way round.
pub proof fn lemma_be16_round_trip(v: u16, hi: u8, lo: u8)
    ensures
        be16_bytes(v).len() == 2,
        be16(be16_bytes(v)[0], be16_bytes(v)[1]) == v,
        be16(hi, lo) <= u16::MAX,
        be16_bytes(be16(hi, lo) as u16) == seq![hi, lo],
{
    assert(be16_bytes(be16(hi, lo) as u16) =~= seq![hi, lo]);
}

/// Writing a 32-bit number most significant byte first and reading it back
/// gives the number again.
pub proof fn lemma_be32_round_trip(v: u32)
    ensures
        be32_bytes(v).len() == 4,
        be32(be32_bytes(v)[0], be32_bytes(v)[1], be32_bytes(v)[2], be32_bytes(v)[3]) == v,
{
}

/// Zero padding fills exactly the width, keeps the bytes in front and puts
/// zeros behind them.
pub proof fn lemma_zero_padded(bytes: Seq<u8>, width: nat)
    requires
        bytes.len() <= width,
    ensures
        zero_padded(bytes, width).len() == width,
        zero_padded(bytes, width).subrange(0, bytes.len() as int) == bytes,
        forall|i: int| bytes.len() <= i < width ==> zero_padded(bytes, width)[i] == 0,
{
    assert(zero_padded(bytes, width).subrange(0, bytes.len() as int) =~= bytes);
}

pub(crate) fn read_be16(hi: u8, lo: u8) -> (v: u16)
    ensures
        v == be16(hi, lo),
{
    (hi as u16) * 256 + (lo as u16)
}

pub(crate) fn read_le16(lo: u8, hi: u8) -> (v: u16)
    ensures
        v == le16(lo, hi),
{
    (hi as u16) * 256 + (lo as u16)
}

pub(crate) fn push_be16(out: &mut Vec<u8>, v: u16)
    ensures
        final(out)@ == old(out)@ + be16_bytes(v),
{
    out.push((v / 256) as u8);
    out.push((v % 256) as u8);
    assert(out@ =~= old(out)@ + be16_bytes(v));
}

pub(crate) fn push_be32(out: &mut Vec<u8>, v: u32)
    ensures
        final(out)@ == old(out)@ + be32_bytes(v),
{
    out.push((v / 0x100_0000) as u8);
    out.push(((v / 0x1_0000) % 256) as u8);
    out.push(((v / 0x100) % 256) as u8);
    out.push((v % 256) as u8);
    assert(out@ =~= old(out)@ + be32_bytes(v));
}

pub(crate) fn push_zeros(out: &mut Vec<u8>, n: usize)
    ensures
        final(out)@ == old(out)@ + zeros(n as nat),
{
    let mut i: usize = 0;
    while i < n
        invariant
            i <= n,
            out@ == old(out)@ + zeros(i as nat),
        decreases n - i,
    {
        out.push(0u8);
        i = i + 1;
        assert(out@ =~= old(out)@ + zeros(i as nat));
    }
}

pub(crate) fn push_all(out: &mut Vec<u8>, bytes: &[u8])
    ensures
        final(out)@ == old(out)@ + bytes@,
{
    out.extend_from_slice(bytes);
    assert(out@ =~= old(out)@ + bytes@);
}

} // verus!
